//! Per-site lattice state and the from-scratch definitions that the
//! incremental bookkeeping is proved against.
//!
//! Every observable quantity of the engine (coordination numbers, the
//! coordination histogram, the total energy) has a definition here that reads
//! the whole lattice, and the engine's O(1) updates are proved equal to it.

use crate::energy::{
    spec_energy_diff_cn, spec_energy_diff_l_cn, spec_from_term, spec_move_end_terms,
    spec_site_energy, spec_sum_from_terms, spec_sum_to_terms, spec_to_term, EnergyInput,
    EnergyValues, ENERGY_ENTRY_BOUND,
};
use crate::sites::{
    distinct_sites, lemma_sum_concentrated, lemma_sum_range_linear, lemma_sum_seq_congruent,
    lemma_sum_seq_minus_at, sum_over_range, sum_over_seq,
};
use vstd::prelude::*;

verus! {

/// Largest number of lattice sites a simulation accepts; with energy tables
/// bounded by `ENERGY_ENTRY_BOUND`, a lattice this size keeps every energy
/// total far from the ends of the `i64` range.
pub const MAX_NSITES: usize = 0x100_0000;

/// One lattice site: occupancy (0 empty, 1 metal, 2 fixed support), the
/// cached coordination number, whether the site touches the support, and the
/// site's fixed first neighbor shell.
#[derive(Clone, Copy)]
pub struct AtomPosition {
    pub occ: u8,
    pub cn_metal: usize,
    pub nn_support: u8,
    pub nn: [u32; 12],
}

/// Site `s` exists and holds a metal atom.
pub open spec fn occ_at(pos: Seq<AtomPosition>, s: int) -> bool {
    0 <= s < pos.len() && pos[s].occ == 1
}

/// Number of metal-occupied sites among the first `k` entries of `neigh`.
pub open spec fn occ_in_prefix(pos: Seq<AtomPosition>, neigh: Seq<u32>, k: int) -> int
    decreases k,
{
    if k <= 0 {
        0
    } else {
        occ_in_prefix(pos, neigh, k - 1) + if occ_at(pos, neigh[k - 1] as int) {
            1int
        } else {
            0
        }
    }
}

/// The coordination number of site `s`, recomputed from scratch: the number
/// of metal-occupied sites in its neighbor shell.
pub open spec fn spec_cn(pos: Seq<AtomPosition>, s: int) -> int {
    occ_in_prefix(pos, pos[s].nn@, 12)
}

/// Number of occurrences of site `s` among the first `k` entries of `neigh`.
pub open spec fn index_count_prefix(neigh: Seq<u32>, k: int, s: int) -> int
    decreases k,
{
    if k <= 0 {
        0
    } else {
        index_count_prefix(neigh, k - 1, s) + if neigh[k - 1] as int == s {
            1int
        } else {
            0
        }
    }
}

/// Whether site `s` is counted by the histogram bucket `k`: it must hold a
/// metal atom with coordination number `k`, not be the excluded site, and,
/// for the support-restricted histogram, touch the support.
pub open spec fn hist_contrib(
    pos: Seq<AtomPosition>,
    s: int,
    k: int,
    excl: int,
    supp_only: bool,
) -> int {
    if 0 <= s < pos.len() && pos[s].occ == 1 && pos[s].cn_metal as int == k && s != excl && (!supp_only
        || pos[s].nn_support == 1) {
        1
    } else {
        0
    }
}

/// Number of sites below `n` counted by histogram bucket `k`.
pub open spec fn hist_count(
    pos: Seq<AtomPosition>,
    k: int,
    n: int,
    excl: int,
    supp_only: bool,
) -> int
    decreases n,
{
    if n <= 0 {
        0
    } else {
        hist_count(pos, k, n - 1, excl, supp_only) + hist_contrib(pos, n - 1, k, excl, supp_only)
    }
}

/// The fixed-point energy contributed by site `s`: its site energy if it
/// holds a metal atom, zero otherwise.  The cached coordination number is
/// used, as the engine does; well-formed states keep it equal to the
/// from-scratch one.
pub open spec fn site_contrib(
    pos: Seq<AtomPosition>,
    energy: EnergyInput,
    support_e: i64,
    s: int,
) -> int {
    if occ_at(pos, s) {
        spec_site_energy(energy, pos[s].cn_metal as int, pos[s].nn_support, support_e)
    } else {
        0
    }
}

/// Total fixed-point energy of the first `n` sites, from scratch.
pub open spec fn total_energy_prefix(
    pos: Seq<AtomPosition>,
    energy: EnergyInput,
    support_e: i64,
    n: int,
) -> int
    decreases n,
{
    if n <= 0 {
        0
    } else {
        total_energy_prefix(pos, energy, support_e, n - 1) + site_contrib(pos, energy, support_e, n - 1)
    }
}

/// Total fixed-point energy of the whole lattice, from scratch.
pub open spec fn spec_total_energy(pos: Seq<AtomPosition>, energy: EnergyInput, support_e: i64) -> int {
    total_energy_prefix(pos, energy, support_e, pos.len() as int)
}

/// Site `t` is in the neighbor shell of site `s`.
pub open spec fn is_nn(pos: Seq<AtomPosition>, s: int, t: int) -> bool {
    pos[s].nn@.contains(t as u32)
}

/// The neighbor shell of one site is well formed: every neighbor is a valid
/// site other than the site itself, and no neighbor is listed twice.
pub open spec fn nn_ok(pos: Seq<AtomPosition>, s: int) -> bool {
    &&& forall|j: int| 0 <= j < 12 ==> (#[trigger] pos[s].nn@[j]) < pos.len() && pos[s].nn@[j] as int
        != s
    &&& distinct_sites(pos[s].nn@)
}

/// The topology is well formed: bounded size, well-formed shells, and the
/// neighbor relation is symmetric.
pub open spec fn wf_topology(pos: Seq<AtomPosition>) -> bool {
    &&& pos.len() <= MAX_NSITES
    &&& forall|s: int| 0 <= s < pos.len() ==> nn_ok(pos, s)
    &&& forall|s: int, j: int|
        0 <= s < pos.len() && 0 <= j < 12 ==> pos[(#[trigger] pos[s].nn@[j]) as int].nn@.contains(
            s as u32,
        )
}

/// Occupancies are one of empty, metal, or support, and the support flag is
/// boolean.
pub open spec fn occ_ok(pos: Seq<AtomPosition>) -> bool {
    forall|s: int|
        0 <= s < pos.len() ==> ((#[trigger] pos[s].occ == 0 || pos[s].occ == 1 || pos[s].occ == 2)
            && pos[s].nn_support <= 1)
}

/// Every cached coordination number equals the from-scratch one.
pub open spec fn cn_consistent(pos: Seq<AtomPosition>) -> bool {
    forall|s: int| 0 <= s < pos.len() ==> (#[trigger] pos[s].cn_metal) as int == spec_cn(pos, s)
}

/// The lattice state after moving the atom at `a` to the empty site `b`:
/// occupancy swaps, and every cached coordination number is the from-scratch
/// one of the new occupancy.
pub open spec fn spec_move_applied(pos: Seq<AtomPosition>, a: int, b: int) -> Seq<AtomPosition> {
    let occ_upd = pos.update(a, AtomPosition { occ: 0, ..pos[a] }).update(
        b,
        AtomPosition { occ: pos[a].occ, ..pos[b] },
    );
    Seq::new(pos.len(), |s: int| AtomPosition { cn_metal: spec_cn(occ_upd, s) as usize, ..occ_upd[s] })
}

/// Two lists that agree on a prefix count it equally.
pub proof fn lemma_occ_prefix_seq_congruent(
    pos: Seq<AtomPosition>,
    l1: Seq<u32>,
    l2: Seq<u32>,
    k: int,
)
    requires
        forall|j: int| 0 <= j < k ==> #[trigger] l1[j] == l2[j],
    ensures
        occ_in_prefix(pos, l1, k) == occ_in_prefix(pos, l2, k),
    decreases k,
{
    if k > 0 {
        lemma_occ_prefix_seq_congruent(pos, l1, l2, k - 1);
    }
}

/// Summing `c` over the metal-occupied entries of a list gives `c` times the
/// list's occupied count.
pub proof fn lemma_occ_scaled_seq_sum(pos: Seq<AtomPosition>, l: Seq<u32>, c: int)
    ensures
        crate::sites::sum_over_seq(
            |s: int|
                if occ_at(pos, s) {
                    c
                } else {
                    0
                },
            l,
        ) == c * occ_in_prefix(pos, l, l.len() as int),
    decreases l.len(),
{
    let f = |s: int|
        if occ_at(pos, s) {
            c
        } else {
            0
        };
    if l.len() == 0 {
        assert(c * 0 == 0) by (nonlinear_arith);
    } else {
        lemma_occ_scaled_seq_sum(pos, l.drop_last(), c);
        lemma_occ_prefix_seq_congruent(pos, l, l.drop_last(), l.len() - 1);
        let m = occ_in_prefix(pos, l, l.len() - 1);
        if occ_at(pos, l.last() as int) {
            assert(c * m + c == c * (m + 1)) by (nonlinear_arith);
        }
    }
}

/// The difference of two from-scratch totals is the sum of the per-site
/// contribution differences.
pub proof fn lemma_total_diff_as_delta(
    pos1: Seq<AtomPosition>,
    pos2: Seq<AtomPosition>,
    energy: EnergyInput,
    support_e: i64,
    d: spec_fn(int) -> int,
    n: int,
)
    requires
        forall|s: int|
            0 <= s < n ==> #[trigger] d(s) == site_contrib(pos2, energy, support_e, s)
                - site_contrib(pos1, energy, support_e, s),
    ensures
        total_energy_prefix(pos2, energy, support_e, n) - total_energy_prefix(
            pos1,
            energy,
            support_e,
            n,
        ) == crate::sites::sum_over_range(d, n),
    decreases n,
{
    if n > 0 {
        lemma_total_diff_as_delta(pos1, pos2, energy, support_e, d, n - 1);
    }
}

/// The per-site effect of one move on occupancies and coordination numbers,
/// with the coordination change written through occurrence counts in the two
/// endpoints' shells.
pub proof fn lemma_move_cn_facts(pos: Seq<AtomPosition>, a: int, b: int)
    requires
        wf_topology(pos),
        cn_consistent(pos),
        0 <= a < pos.len(),
        0 <= b < pos.len(),
        a != b,
        pos[a].occ == 1,
        pos[b].occ == 0,
        is_nn(pos, a, b),
    ensures
        spec_move_applied(pos, a, b).len() == pos.len(),
        forall|s: int|
            0 <= s < pos.len() ==> (#[trigger] spec_move_applied(pos, a, b)[s]).nn == pos[s].nn
                && spec_move_applied(pos, a, b)[s].nn_support == pos[s].nn_support,
        spec_move_applied(pos, a, b)[a].occ == 0,
        spec_move_applied(pos, a, b)[b].occ == 1,
        forall|s: int|
            0 <= s < pos.len() && s != a && s != b ==> (#[trigger] spec_move_applied(
                pos,
                a,
                b,
            )[s]).occ == pos[s].occ,
        forall|s: int|
            0 <= s < pos.len() ==> (#[trigger] spec_move_applied(pos, a, b)[s]).cn_metal as int
                == pos[s].cn_metal + index_count_prefix(pos[b].nn@, 12, s) - index_count_prefix(
                pos[a].nn@,
                12,
                s,
            ),
        forall|s: int|
            0 <= s < pos.len() ==> 0 <= #[trigger] index_count_prefix(pos[a].nn@, 12, s) <= 1 && 0
                <= index_count_prefix(pos[b].nn@, 12, s) <= 1,
        forall|s: int|
            0 <= s < pos.len() ==> ((#[trigger] index_count_prefix(pos[a].nn@, 12, s) == 1)
                <==> pos[a].nn@.contains(s as u32)),
        forall|s: int|
            0 <= s < pos.len() ==> ((#[trigger] index_count_prefix(pos[b].nn@, 12, s) == 1)
                <==> pos[b].nn@.contains(s as u32)),
        index_count_prefix(pos[a].nn@, 12, b) == 1,
        index_count_prefix(pos[b].nn@, 12, b) == 0,
        spec_move_applied(pos, a, b)[b].cn_metal as int == pos[b].cn_metal - 1,
{
    let pos2 = spec_move_applied(pos, a, b);
    let occ_upd = pos.update(a, AtomPosition { occ: 0, ..pos[a] }).update(
        b,
        AtomPosition { occ: pos[a].occ, ..pos[b] },
    );
    assert(crate::lattice::nn_ok(pos, a));
    assert(crate::lattice::nn_ok(pos, b));
    assert forall|s: int| 0 <= s < pos.len() implies (#[trigger] pos2[s]).cn_metal as int
        == pos[s].cn_metal + index_count_prefix(pos[b].nn@, 12, s) - index_count_prefix(
        pos[a].nn@,
        12,
        s,
    ) by {
        assert(occ_upd[s].nn == pos[s].nn);
        lemma_occ_prefix_bounds(occ_upd, pos[s].nn@, 12);
        lemma_occ_prefix_change(pos, occ_upd, pos[s].nn@, 12, a, b);
        lemma_nn_symmetric_indicator(pos, s, a);
        lemma_nn_symmetric_indicator(pos, s, b);
        assert(pos2[s].cn_metal as int == occ_in_prefix(occ_upd, pos[s].nn@, 12));
    }
    assert forall|s: int| 0 <= s < pos.len() implies 0 <= #[trigger] index_count_prefix(
        pos[a].nn@,
        12,
        s,
    ) <= 1 && ((index_count_prefix(pos[a].nn@, 12, s) == 1) <==> pos[a].nn@.contains(s as u32)) by {
        lemma_index_count_distinct(pos[a].nn@, 12, s);
        if pos[a].nn@.contains(s as u32) {
            let j = choose|j: int| 0 <= j < pos[a].nn@.len() && pos[a].nn@[j] == s as u32;
            assert(pos[a].nn@[j] as int == s);
        }
    }
    assert forall|s: int| 0 <= s < pos.len() implies 0 <= #[trigger] index_count_prefix(
        pos[b].nn@,
        12,
        s,
    ) <= 1 && ((index_count_prefix(pos[b].nn@, 12, s) == 1) <==> pos[b].nn@.contains(s as u32)) by {
        lemma_index_count_distinct(pos[b].nn@, 12, s);
        if pos[b].nn@.contains(s as u32) {
            let j = choose|j: int| 0 <= j < pos[b].nn@.len() && pos[b].nn@[j] == s as u32;
            assert(pos[b].nn@[j] as int == s);
        }
    }
    lemma_index_count_distinct(pos[a].nn@, 12, b);
    lemma_index_count_distinct(pos[b].nn@, 12, b);
    assert(pos[a].nn@.contains(b as u32));
    let jb = choose|jb: int| 0 <= jb < pos[a].nn@.len() && pos[a].nn@[jb] == b as u32;
    assert(pos[a].nn@[jb] as int == b);
}

/// The `(coordination, support-flag)` pairs of the metal-occupied entries of
/// a site list, in list order: exactly what the engine hands to the
/// table-model difference routine.
pub open spec fn spec_occ_entries(pos: Seq<AtomPosition>, l: Seq<u32>) -> Seq<(usize, u8)>
    decreases l.len(),
{
    if l.len() == 0 {
        Seq::empty()
    } else {
        let rest = spec_occ_entries(pos, l.drop_last());
        if occ_at(pos, l.last() as int) {
            rest.push((pos[l.last() as int].cn_metal, pos[l.last() as int].nn_support))
        } else {
            rest
        }
    }
}

proof fn lemma_from_terms_as_seq_sum(
    pos: Seq<AtomPosition>,
    ev: EnergyValues<[i64; 13]>,
    d: spec_fn(int) -> int,
    l: Seq<u32>,
)
    requires
        forall|j: int|
            0 <= j < l.len() ==> #[trigger] d(l[j] as int) == (if occ_at(pos, l[j] as int) {
                spec_from_term(ev, pos[l[j] as int].cn_metal as int, pos[l[j] as int].nn_support)
            } else {
                0
            }),
    ensures
        spec_sum_from_terms(ev, spec_occ_entries(pos, l)) == sum_over_seq(d, l),
    decreases l.len(),
{
    if l.len() > 0 {
        assert forall|j: int| 0 <= j < l.drop_last().len() implies #[trigger] d(
            l.drop_last()[j] as int,
        ) == (if occ_at(pos, l.drop_last()[j] as int) {
            spec_from_term(
                ev,
                pos[l.drop_last()[j] as int].cn_metal as int,
                pos[l.drop_last()[j] as int].nn_support,
            )
        } else {
            0
        }) by {
            assert(l.drop_last()[j] == l[j]);
        }
        lemma_from_terms_as_seq_sum(pos, ev, d, l.drop_last());
        assert(l[l.len() - 1] == l.last());
        let rest = spec_occ_entries(pos, l.drop_last());
        if occ_at(pos, l.last() as int) {
            let pair = (pos[l.last() as int].cn_metal, pos[l.last() as int].nn_support);
            assert(rest.push(pair).drop_last() =~= rest);
            assert(rest.push(pair).last() == pair);
        }
    }
}

proof fn lemma_to_terms_as_seq_sum(
    pos: Seq<AtomPosition>,
    ev: EnergyValues<[i64; 13]>,
    d: spec_fn(int) -> int,
    l: Seq<u32>,
)
    requires
        forall|j: int|
            0 <= j < l.len() ==> #[trigger] d(l[j] as int) == (if occ_at(pos, l[j] as int) {
                spec_to_term(ev, pos[l[j] as int].cn_metal as int, pos[l[j] as int].nn_support)
            } else {
                0
            }),
    ensures
        spec_sum_to_terms(ev, spec_occ_entries(pos, l)) == sum_over_seq(d, l),
    decreases l.len(),
{
    if l.len() > 0 {
        assert forall|j: int| 0 <= j < l.drop_last().len() implies #[trigger] d(
            l.drop_last()[j] as int,
        ) == (if occ_at(pos, l.drop_last()[j] as int) {
            spec_to_term(
                ev,
                pos[l.drop_last()[j] as int].cn_metal as int,
                pos[l.drop_last()[j] as int].nn_support,
            )
        } else {
            0
        }) by {
            assert(l.drop_last()[j] == l[j]);
        }
        lemma_to_terms_as_seq_sum(pos, ev, d, l.drop_last());
        assert(l[l.len() - 1] == l.last());
        let rest = spec_occ_entries(pos, l.drop_last());
        if occ_at(pos, l.last() as int) {
            let pair = (pos[l.last() as int].cn_metal, pos[l.last() as int].nn_support);
            assert(rest.push(pair).drop_last() =~= rest);
            assert(rest.push(pair).last() == pair);
        }
    }
}

/// Sum of a function concentrated on the two move endpoints.
proof fn lemma_sum_two_points(d: spec_fn(int) -> int, a: int, b: int, n: int)
    requires
        n <= 0x1_0000_0000,
        0 <= a < n,
        0 <= b < n,
        a != b,
        forall|s: int| 0 <= s < n && s != a && s != b ==> #[trigger] d(s) == 0,
    ensures
        sum_over_range(d, n) == d(a) + d(b),
{
    let l = seq![a as u32, b as u32];
    assert(l[0] == a as u32 && l[1] == b as u32);
    assert((a as u32) as int == a);
    assert((b as u32) as int == b);
    assert(distinct_sites(l));
    assert forall|s: int| 0 <= s < n && !l.contains(s as u32) implies #[trigger] d(s) == 0 by {
        if s == a {
            assert(l[0] == s as u32);
        } else if s == b {
            assert(l[1] == s as u32);
        }
    }
    lemma_sum_concentrated(d, l, n);
    let la = l.drop_last();
    assert(la =~= seq![a as u32]);
    assert(la.drop_last() =~= Seq::<u32>::empty());
    assert(l.last() == b as u32);
    assert(la.last() == a as u32);
    assert(sum_over_seq(d, l) == sum_over_seq(d, la) + d(b));
    assert(sum_over_seq(d, la) == sum_over_seq(d, Seq::<u32>::empty()) + d(a));
    assert(sum_over_seq(d, l) == d(a) + d(b));
}

/// The linear model's closed-form move difference is the exact from-scratch
/// total-energy difference of the move.
#[verifier::rlimit(100)]
#[verifier::spinoff_prover]
pub proof fn lemma_linear_diff_exact(
    pos: Seq<AtomPosition>,
    ev: EnergyValues<[i64; 2]>,
    support_e: i64,
    a: int,
    b: int,
)
    requires
        wf_topology(pos),
        occ_ok(pos),
        cn_consistent(pos),
        0 <= a < pos.len(),
        0 <= b < pos.len(),
        a != b,
        pos[a].occ == 1,
        pos[b].occ == 0,
        is_nn(pos, a, b),
    ensures
        spec_total_energy(spec_move_applied(pos, a, b), EnergyInput::LinearCn(ev), support_e)
            - spec_total_energy(pos, EnergyInput::LinearCn(ev), support_e) == spec_energy_diff_l_cn(
            ev.complet_energy,
            pos[a].cn_metal as int,
            pos[b].cn_metal as int - 1,
            pos[a].nn_support,
            pos[b].nn_support,
            support_e,
        ),
{
    let n = pos.len() as int;
    let energy = EnergyInput::LinearCn(ev);
    let pos2 = spec_move_applied(pos, a, b);
    let slope = ev.complet_energy@[0] as int;
    let c0 = ev.complet_energy@[1] as int;
    let cn_a = pos[a].cn_metal as int;
    let cn_b = pos[b].cn_metal as int;
    let fa = pos[a].nn_support as int;
    let fb = pos[b].nn_support as int;
    lemma_move_cn_facts(pos, a, b);
    let ia = |s: int| index_count_prefix(pos[a].nn@, 12, s);
    let ib = |s: int| index_count_prefix(pos[b].nn@, 12, s);
    let d = |s: int|
        site_contrib(pos2, energy, support_e, s) - site_contrib(pos, energy, support_e, s);
    let ga = |s: int|
        if 0 <= s < n && s != a && s != b && occ_at(pos, s) {
            -slope * ia(s)
        } else {
            0
        };
    let gb = |s: int|
        if 0 <= s < n && s != a && s != b && occ_at(pos, s) {
            slope * ib(s)
        } else {
            0
        };
    let dp = |s: int|
        if s == a {
            -(slope * cn_a + c0 + support_e * fa)
        } else if s == b {
            slope * (cn_b - 1) + c0 + support_e * fb
        } else {
            0
        };
    let gab = |s: int| ga(s) + gb(s);
    assert forall|s: int| 0 <= s < n implies #[trigger] d(s) == gab(s) + dp(s) by {
        if s == a {
            assert(site_contrib(pos2, energy, support_e, a) == 0);
            assert(site_contrib(pos, energy, support_e, a) == slope * cn_a + c0 + support_e * fa);
        } else if s == b {
            assert(site_contrib(pos, energy, support_e, b) == 0);
            assert(pos2[b].cn_metal as int == cn_b - 1);
            assert(site_contrib(pos2, energy, support_e, b) == slope * (cn_b - 1) + c0 + support_e
                * fb);
        } else if occ_at(pos, s) {
            let cn1 = pos[s].cn_metal as int;
            let fs = pos[s].nn_support as int;
            assert(pos2[s].occ == pos[s].occ && pos2[s].nn_support == pos[s].nn_support);
            assert(pos2[s].cn_metal as int == cn1 + ib(s) - ia(s));
            assert(site_contrib(pos, energy, support_e, s) == slope * cn1 + c0 + support_e * fs);
            assert(site_contrib(pos2, energy, support_e, s) == slope * (cn1 + ib(s) - ia(s)) + c0
                + support_e * fs);
            assert(slope * (cn1 + ib(s) - ia(s)) - slope * cn1 == slope * ib(s) + -slope * ia(s))
                by (nonlinear_arith);
        } else {
            assert(pos2[s].occ == pos[s].occ);
        }
    }
    lemma_sum_range_linear(gab, dp, d, n);
    lemma_sum_range_linear(ga, gb, gab, n);
    lemma_sum_two_points(dp, a, b, n);
    assert(nn_ok(pos, a));
    assert(nn_ok(pos, b));
    // the shell-of-a part sums to -slope times a's coordination number
    assert forall|s: int| 0 <= s < n && !pos[a].nn@.contains(s as u32) implies #[trigger] ga(s)
        == 0 by {
        if s != a && s != b && occ_at(pos, s) {
            lemma_index_count_distinct(pos[a].nn@, 12, s);
            if exists|j: int| 0 <= j < 12 && pos[a].nn@[j] as int == s {
                let j = choose|j: int| 0 <= j < 12 && pos[a].nn@[j] as int == s;
                assert(pos[a].nn@[j] == s as u32);
                assert(false);
            }
            assert(ia(s) == 0);
            assert(-slope * 0int == 0) by (nonlinear_arith);
        }
    }
    lemma_sum_concentrated(ga, pos[a].nn@, n);
    let occ_neg = |s: int|
        if occ_at(pos, s) {
            -slope
        } else {
            0
        };
    assert forall|j: int| 0 <= j < pos[a].nn@.len() implies ga(#[trigger] pos[a].nn@[j] as int)
        == occ_neg(pos[a].nn@[j] as int) by {
        let x = pos[a].nn@[j] as int;
        assert(pos[a].nn@.contains(pos[a].nn@[j]));
        assert(ia(x) == 1);
        if occ_at(pos, x) {
            assert(x != b);
            assert(-slope * 1int == -slope) by (nonlinear_arith);
        }
    }
    lemma_sum_seq_congruent(ga, occ_neg, pos[a].nn@);
    lemma_occ_scaled_seq_sum(pos, pos[a].nn@, -slope);
    assert(occ_in_prefix(pos, pos[a].nn@, 12) == cn_a);
    // the shell-of-b part sums to slope times b's coordination number minus
    // the departing atom's contribution
    assert forall|s: int| 0 <= s < n && !pos[b].nn@.contains(s as u32) implies #[trigger] gb(s)
        == 0 by {
        if s != a && s != b && occ_at(pos, s) {
            lemma_index_count_distinct(pos[b].nn@, 12, s);
            if exists|j: int| 0 <= j < 12 && pos[b].nn@[j] as int == s {
                let j = choose|j: int| 0 <= j < 12 && pos[b].nn@[j] as int == s;
                assert(pos[b].nn@[j] == s as u32);
                assert(false);
            }
            assert(ib(s) == 0);
            assert(slope * 0int == 0) by (nonlinear_arith);
        }
    }
    lemma_sum_concentrated(gb, pos[b].nn@, n);
    let occ_pos = |s: int|
        if occ_at(pos, s) {
            slope
        } else {
            0
        };
    let jb2 = choose|j: int| 0 <= j < pos[a].nn@.len() && pos[a].nn@[j] == b as u32;
    assert(pos[(pos[a].nn@[jb2]) as int].nn@.contains(a as u32));
    assert(pos[b].nn@.contains(a as u32));
    assert(gb(a) == occ_pos(a) - slope);
    assert forall|j: int|
        0 <= j < pos[b].nn@.len() && pos[b].nn@[j] != a as u32 implies gb(
        #[trigger] pos[b].nn@[j] as int,
    ) == occ_pos(pos[b].nn@[j] as int) by {
        let x = pos[b].nn@[j] as int;
        assert(pos[b].nn@.contains(pos[b].nn@[j]));
        assert(ib(x) == 1);
        assert(x != a);
        if occ_at(pos, x) {
            assert(x != b);
            assert(slope * 1int == slope) by (nonlinear_arith);
        }
    }
    lemma_sum_seq_minus_at(gb, occ_pos, pos[b].nn@, a as u32, slope);
    lemma_occ_scaled_seq_sum(pos, pos[b].nn@, slope);
    assert(occ_in_prefix(pos, pos[b].nn@, 12) == cn_b);
    lemma_total_diff_as_delta(pos, pos2, energy, support_e, d, n);
    let lhs = spec_total_energy(pos2, energy, support_e) - spec_total_energy(pos, energy, support_e);
    assert(lhs == sum_over_range(d, n));
    assert(sum_over_range(ga, n) == -slope * cn_a);
    assert(sum_over_range(gb, n) == slope * cn_b - slope);
    assert(lhs == -slope * cn_a + (slope * cn_b - slope) + dp(a) + dp(b));
    assert(-slope * cn_a + (slope * cn_b - slope) + (-(slope * cn_a + c0 + support_e * fa)) + (slope
        * (cn_b - 1) + c0 + support_e * fb) == 2 * ((cn_b - 1) * slope + c0) + support_e * fb - 2 * (
    cn_a * slope + c0) - support_e * fa) by (nonlinear_arith);
}

/// The table model's listed move difference is the exact from-scratch
/// total-energy difference of the move, for any exact decomposition of the
/// two shells into "via one endpoint only" groups.
#[verifier::rlimit(100)]
#[verifier::spinoff_prover]
pub proof fn lemma_table_diff_exact(
    pos: Seq<AtomPosition>,
    ev: EnergyValues<[i64; 13]>,
    support_e: i64,
    a: int,
    b: int,
    arr_f: [u32; 7],
    arr_t: [u32; 7],
)
    requires
        wf_topology(pos),
        occ_ok(pos),
        cn_consistent(pos),
        0 <= a < pos.len(),
        0 <= b < pos.len(),
        a != b,
        pos[a].occ == 1,
        pos[b].occ == 0,
        is_nn(pos, a, b),
        distinct_sites(arr_f@),
        distinct_sites(arr_t@),
        forall|j: int|
            0 <= j < 7 ==> pos[a].nn@.contains(#[trigger] arr_f@[j]) && !pos[b].nn@.contains(
                arr_f@[j],
            ) && arr_f@[j] as int != b,
        forall|j: int|
            0 <= j < 12 && !pos[b].nn@.contains(#[trigger] pos[a].nn@[j]) && pos[a].nn@[j] as int
                != b ==> arr_f@.contains(pos[a].nn@[j]),
        forall|j: int|
            0 <= j < 7 ==> pos[b].nn@.contains(#[trigger] arr_t@[j]) && !pos[a].nn@.contains(
                arr_t@[j],
            ) && arr_t@[j] as int != a,
        forall|j: int|
            0 <= j < 12 && !pos[a].nn@.contains(#[trigger] pos[b].nn@[j]) && pos[b].nn@[j] as int
                != a ==> arr_t@.contains(pos[b].nn@[j]),
    ensures
        spec_total_energy(spec_move_applied(pos, a, b), EnergyInput::Cn(ev), support_e)
            - spec_total_energy(pos, EnergyInput::Cn(ev), support_e) == spec_energy_diff_cn(
            ev,
            spec_occ_entries(pos, arr_f@),
            spec_occ_entries(pos, arr_t@),
            pos[a].cn_metal as int,
            pos[b].cn_metal as int,
            pos[a].nn_support,
            pos[b].nn_support,
            support_e,
        ),
{
    let n = pos.len() as int;
    let energy = EnergyInput::Cn(ev);
    let pos2 = spec_move_applied(pos, a, b);
    lemma_move_cn_facts(pos, a, b);
    let ia = |s: int| index_count_prefix(pos[a].nn@, 12, s);
    let ib = |s: int| index_count_prefix(pos[b].nn@, 12, s);
    let d = |s: int|
        site_contrib(pos2, energy, support_e, s) - site_contrib(pos, energy, support_e, s);
    let df = |s: int|
        if 0 <= s < n && s != a && s != b && occ_at(pos, s) && ia(s) == 1 && ib(s) == 0 {
            spec_from_term(ev, pos[s].cn_metal as int, pos[s].nn_support)
        } else {
            0
        };
    let dt = |s: int|
        if 0 <= s < n && s != a && s != b && occ_at(pos, s) && ia(s) == 0 && ib(s) == 1 {
            spec_to_term(ev, pos[s].cn_metal as int, pos[s].nn_support)
        } else {
            0
        };
    let dp = |s: int|
        if s == a {
            -site_contrib(pos, energy, support_e, a)
        } else if s == b {
            site_contrib(pos2, energy, support_e, b)
        } else {
            0
        };
    let dtp = |s: int| dt(s) + dp(s);
    assert(nn_ok(pos, a));
    assert(nn_ok(pos, b));
    assert forall|s: int| 0 <= s < n implies #[trigger] d(s) == df(s) + dtp(s) by {
        if s == a {
            assert(site_contrib(pos2, energy, support_e, a) == 0);
        } else if s == b {
            assert(site_contrib(pos, energy, support_e, b) == 0);
        } else if occ_at(pos, s) {
            let cn1 = pos[s].cn_metal as int;
            assert(pos2[s].occ == pos[s].occ && pos2[s].nn_support == pos[s].nn_support);
            assert(pos2[s].cn_metal as int == cn1 + ib(s) - ia(s));
            if ia(s) == 1 && ib(s) == 0 {
                // the departing atom sits in s's shell, so cn1 is positive
                assert(pos[a].nn@.contains(s as u32));
                let j = choose|j: int| 0 <= j < pos[a].nn@.len() && pos[a].nn@[j] == s as u32;
                assert(pos[(pos[a].nn@[j]) as int].nn@.contains(a as u32));
                let ja = choose|ja: int|
                    0 <= ja < pos[s].nn@.len() && pos[s].nn@[ja] == a as u32;
                lemma_occ_prefix_member(pos, pos[s].nn@, 12, ja);
                assert(cn1 >= 1);
            } else if ia(s) == 0 && ib(s) == 1 {
                // the empty target sits in s's shell, so cn1 stays below 12
                assert(pos[b].nn@.contains(s as u32));
                let j = choose|j: int| 0 <= j < pos[b].nn@.len() && pos[b].nn@[j] == s as u32;
                assert(pos[(pos[b].nn@[j]) as int].nn@.contains(b as u32));
                let jb = choose|jb: int|
                    0 <= jb < pos[s].nn@.len() && pos[s].nn@[jb] == b as u32;
                assert(nn_ok(pos, s));
                lemma_occ_prefix_nonmember(pos, pos[s].nn@, 12, jb);
                assert(cn1 <= 11);
            }
        } else {
            assert(pos2[s].occ == pos[s].occ);
        }
    }
    lemma_sum_range_linear(df, dtp, d, n);
    lemma_sum_range_linear(dt, dp, dtp, n);
    lemma_sum_two_points(dp, a, b, n);
    assert forall|s: int| 0 <= s < n && !arr_f@.contains(s as u32) implies #[trigger] df(s)
        == 0 by {
        if df(s) != 0 {
            assert(pos[a].nn@.contains(s as u32));
            let j = choose|j: int| 0 <= j < pos[a].nn@.len() && pos[a].nn@[j] == s as u32;
            assert(!pos[b].nn@.contains(pos[a].nn@[j]) && pos[a].nn@[j] as int != b);
            assert(arr_f@.contains(pos[a].nn@[j]));
        }
    }
    assert forall|j: int| 0 <= j < arr_f@.len() implies 0 <= #[trigger] arr_f@[j] < n by {
        let x = arr_f@[j];
        let i = choose|i: int| 0 <= i < pos[a].nn@.len() && pos[a].nn@[i] == x;
    }
    lemma_sum_concentrated(df, arr_f@, n);
    assert forall|j: int| 0 <= j < arr_f@.len() implies #[trigger] df(arr_f@[j] as int) == (
    if occ_at(pos, arr_f@[j] as int) {
        spec_from_term(ev, pos[arr_f@[j] as int].cn_metal as int, pos[arr_f@[j] as int].nn_support)
    } else {
        0
    }) by {
        let x = arr_f@[j] as int;
        assert(pos[a].nn@.contains(arr_f@[j]));
        assert(ia(x) == 1);
        assert(ib(x) != 1);
        assert(x != a) by {
            if x == a {
                let i = choose|i: int| 0 <= i < pos[a].nn@.len() && pos[a].nn@[i] == arr_f@[j];
                assert(pos[a].nn@[i] as int != a);
            }
        }
    }
    lemma_from_terms_as_seq_sum(pos, ev, df, arr_f@);
    assert forall|s: int| 0 <= s < n && !arr_t@.contains(s as u32) implies #[trigger] dt(s)
        == 0 by {
        if dt(s) != 0 {
            assert(pos[b].nn@.contains(s as u32));
            let j = choose|j: int| 0 <= j < pos[b].nn@.len() && pos[b].nn@[j] == s as u32;
            assert(!pos[a].nn@.contains(pos[b].nn@[j]) && pos[b].nn@[j] as int != a);
            assert(arr_t@.contains(pos[b].nn@[j]));
        }
    }
    assert forall|j: int| 0 <= j < arr_t@.len() implies 0 <= #[trigger] arr_t@[j] < n by {
        let x = arr_t@[j];
        let i = choose|i: int| 0 <= i < pos[b].nn@.len() && pos[b].nn@[i] == x;
    }
    lemma_sum_concentrated(dt, arr_t@, n);
    assert forall|j: int| 0 <= j < arr_t@.len() implies #[trigger] dt(arr_t@[j] as int) == (
    if occ_at(pos, arr_t@[j] as int) {
        spec_to_term(ev, pos[arr_t@[j] as int].cn_metal as int, pos[arr_t@[j] as int].nn_support)
    } else {
        0
    }) by {
        let x = arr_t@[j] as int;
        assert(pos[b].nn@.contains(arr_t@[j]));
        assert(ib(x) == 1);
        assert(ia(x) != 1);
        assert(x != b) by {
            if x == b {
                let i = choose|i: int| 0 <= i < pos[b].nn@.len() && pos[b].nn@[i] == arr_t@[j];
                assert(pos[b].nn@[i] as int != b);
            }
        }
    }
    lemma_to_terms_as_seq_sum(pos, ev, dt, arr_t@);
    lemma_total_diff_as_delta(pos, pos2, energy, support_e, d, n);
    // the two endpoint contributions are exactly the routine's end terms
    let cn_a = pos[a].cn_metal as int;
    let cn_b = pos[b].cn_metal as int;
    assert(pos2[b].cn_metal as int == cn_b - 1);
    assert(dp(a) + dp(b) == spec_move_end_terms(
        ev,
        cn_a,
        cn_b,
        pos[a].nn_support,
        pos[b].nn_support,
        support_e,
    ));
}

/// Applying a move and then its exact reverse restores the whole lattice
/// state: every occupancy, every cached coordination number, and with them
/// every quantity computed from the state, including the total energy.
pub proof fn lemma_move_reversible(pos: Seq<AtomPosition>, a: int, b: int)
    requires
        wf_topology(pos),
        cn_consistent(pos),
        0 <= a < pos.len(),
        0 <= b < pos.len(),
        a != b,
        pos[a].occ == 1,
        pos[b].occ == 0,
    ensures
        spec_move_applied(spec_move_applied(pos, a, b), b, a) == pos,
{
    let p1 = spec_move_applied(pos, a, b);
    let occ1 = pos.update(a, AtomPosition { occ: 0, ..pos[a] }).update(
        b,
        AtomPosition { occ: pos[a].occ, ..pos[b] },
    );
    let p2 = spec_move_applied(p1, b, a);
    let occ2 = p1.update(b, AtomPosition { occ: 0, ..p1[b] }).update(
        a,
        AtomPosition { occ: p1[b].occ, ..p1[a] },
    );
    assert(p1[b].occ == 1);
    assert forall|s: int| 0 <= s < pos.len() implies (#[trigger] occ2[s]).occ == pos[s].occ
        && occ2[s].nn == pos[s].nn && occ2[s].nn_support == pos[s].nn_support by {
        if s != a && s != b {
            assert(p1[s].occ == occ1[s].occ);
        }
    }
    assert forall|s: int| 0 <= s < pos.len() implies #[trigger] p2[s] == pos[s] by {
        lemma_occ_prefix_congruent(occ2, pos, occ2[s].nn@, 12);
        assert(spec_cn(occ2, s) == spec_cn(pos, s));
        assert(pos[s].cn_metal as int == spec_cn(pos, s));
    }
    assert(p2 =~= pos);
}

pub proof fn lemma_occ_prefix_bounds(pos: Seq<AtomPosition>, neigh: Seq<u32>, k: int)
    ensures
        0 <= occ_in_prefix(pos, neigh, k) <= if k >= 0 {
            k
        } else {
            0
        },
    decreases k,
{
    if k > 0 {
        lemma_occ_prefix_bounds(pos, neigh, k - 1);
    }
}

/// A metal-occupied entry of a duplicate-free shell prefix makes its count
/// positive.
pub proof fn lemma_occ_prefix_member(pos: Seq<AtomPosition>, neigh: Seq<u32>, k: int, j: int)
    requires
        0 <= j < k,
        occ_at(pos, neigh[j] as int),
    ensures
        occ_in_prefix(pos, neigh, k) >= 1,
    decreases k,
{
    lemma_occ_prefix_bounds(pos, neigh, k - 1);
    if j < k - 1 {
        lemma_occ_prefix_member(pos, neigh, k - 1, j);
    }
}

/// An empty entry of a duplicate-free shell keeps its occupied count below
/// the prefix length.
pub proof fn lemma_occ_prefix_nonmember(pos: Seq<AtomPosition>, neigh: Seq<u32>, k: int, j: int)
    requires
        distinct_sites(neigh),
        k <= neigh.len(),
        0 <= j < k,
        !occ_at(pos, neigh[j] as int),
    ensures
        occ_in_prefix(pos, neigh, k) <= k - 1,
    decreases k,
{
    lemma_occ_prefix_bounds(pos, neigh, k - 1);
    if j < k - 1 {
        lemma_occ_prefix_nonmember(pos, neigh, k - 1, j);
    }
}

/// Two lattices with pointwise equal occupancies count any shell equally.
pub proof fn lemma_occ_prefix_congruent(
    pos1: Seq<AtomPosition>,
    pos2: Seq<AtomPosition>,
    neigh: Seq<u32>,
    k: int,
)
    requires
        pos1.len() == pos2.len(),
        forall|s: int| 0 <= s < pos1.len() ==> (#[trigger] pos2[s]).occ == pos1[s].occ,
    ensures
        occ_in_prefix(pos1, neigh, k) == occ_in_prefix(pos2, neigh, k),
    decreases k,
{
    if k > 0 {
        lemma_occ_prefix_congruent(pos1, pos2, neigh, k - 1);
    }
}

pub proof fn lemma_index_count_bounds(neigh: Seq<u32>, k: int, s: int)
    ensures
        0 <= index_count_prefix(neigh, k, s) <= if k >= 0 {
            k
        } else {
            0
        },
    decreases k,
{
    if k > 0 {
        lemma_index_count_bounds(neigh, k - 1, s);
    }
}

/// In a duplicate-free shell, the occurrence count of any site is 1 if the
/// site occurs among the first `k` entries and 0 if it does not.
pub proof fn lemma_index_count_distinct(neigh: Seq<u32>, k: int, s: int)
    requires
        distinct_sites(neigh),
        k <= neigh.len(),
    ensures
        index_count_prefix(neigh, k, s) == if exists|j: int| 0 <= j < k && neigh[j] as int == s {
            1int
        } else {
            0
        },
    decreases k,
{
    if k > 0 {
        lemma_index_count_distinct(neigh, k - 1, s);
        if neigh[k - 1] as int == s {
            assert forall|j: int| 0 <= j < k - 1 implies neigh[j] as int != s by {
                assert(neigh[j] != neigh[k - 1]);
            }
        } else {
            if exists|j: int| 0 <= j < k && neigh[j] as int == s {
                let j = choose|j: int| 0 <= j < k && neigh[j] as int == s;
                assert(0 <= j < k - 1);
            }
        }
    }
}

/// Under a symmetric topology, `t` occurs in the shell of `s` exactly as
/// often as `s` occurs in the shell of `t`.
pub proof fn lemma_nn_symmetric_indicator(pos: Seq<AtomPosition>, s: int, t: int)
    requires
        wf_topology(pos),
        0 <= s < pos.len(),
        0 <= t < pos.len(),
    ensures
        index_count_prefix(pos[s].nn@, 12, t) == index_count_prefix(pos[t].nn@, 12, s),
{
    assert(nn_ok(pos, s));
    assert(nn_ok(pos, t));
    lemma_index_count_distinct(pos[s].nn@, 12, t);
    lemma_index_count_distinct(pos[t].nn@, 12, s);
    if exists|j: int| 0 <= j < 12 && pos[s].nn@[j] as int == t {
        let j = choose|j: int| 0 <= j < 12 && pos[s].nn@[j] as int == t;
        assert(pos[(pos[s].nn@[j]) as int].nn@.contains(s as u32));
        let j2 = choose|j2: int| 0 <= j2 < pos[t].nn@.len() && pos[t].nn@[j2] == s as u32;
        assert(pos[t].nn@[j2] as int == s);
    }
    if exists|j: int| 0 <= j < 12 && pos[t].nn@[j] as int == s {
        let j = choose|j: int| 0 <= j < 12 && pos[t].nn@[j] as int == s;
        assert(pos[(pos[t].nn@[j]) as int].nn@.contains(t as u32));
        let j2 = choose|j2: int| 0 <= j2 < pos[s].nn@.len() && pos[s].nn@[j2] == t as u32;
        assert(pos[s].nn@[j2] as int == t);
    }
}

/// How a prefix count changes when exactly the occupancies of `a` (leaving)
/// and `b` (arriving) change: each index counts the occurrences of `a` and
/// `b` in the prefix.
pub proof fn lemma_occ_prefix_change(
    pos1: Seq<AtomPosition>,
    pos2: Seq<AtomPosition>,
    neigh: Seq<u32>,
    k: int,
    a: int,
    b: int,
)
    requires
        pos1.len() == pos2.len(),
        0 <= a < pos1.len(),
        0 <= b < pos1.len(),
        a != b,
        pos1[a].occ == 1,
        pos2[a].occ != 1,
        pos1[b].occ != 1,
        pos2[b].occ == 1,
        forall|s: int|
            0 <= s < pos1.len() && s != a && s != b ==> (#[trigger] pos2[s]).occ == pos1[s].occ,
    ensures
        occ_in_prefix(pos2, neigh, k) == occ_in_prefix(pos1, neigh, k) - index_count_prefix(
            neigh,
            k,
            a,
        ) + index_count_prefix(neigh, k, b),
    decreases k,
{
    if k > 0 {
        lemma_occ_prefix_change(pos1, pos2, neigh, k - 1, a, b);
    }
}

/// How a histogram bucket changes when one site changes, tolerating an
/// extra difference at the excluded site, which no bucket counts anyway.
pub proof fn lemma_hist_count_update_excl(
    pos1: Seq<AtomPosition>,
    pos2: Seq<AtomPosition>,
    k: int,
    n: int,
    excl: int,
    supp_only: bool,
    t: int,
)
    requires
        pos1.len() == pos2.len(),
        forall|s: int|
            0 <= s < pos1.len() && s != t && s != excl ==> #[trigger] pos2[s] == pos1[s],
    ensures
        hist_count(pos2, k, n, excl, supp_only) == hist_count(pos1, k, n, excl, supp_only) - (
        if 0 <= t < n && t != excl {
            hist_contrib(pos1, t, k, excl, supp_only)
        } else {
            0
        }) + (if 0 <= t < n && t != excl {
            hist_contrib(pos2, t, k, excl, supp_only)
        } else {
            0
        }),
    decreases n,
{
    if n > 0 {
        lemma_hist_count_update_excl(pos1, pos2, k, n - 1, excl, supp_only, t);
        if n - 1 != t && n - 1 != excl && 0 <= n - 1 < pos1.len() {
            assert(pos2[n - 1] == pos1[n - 1]);
        }
    }
}

/// A site counted by a bucket makes that bucket's count positive.
pub proof fn lemma_hist_count_member(
    pos: Seq<AtomPosition>,
    k: int,
    n: int,
    excl: int,
    supp_only: bool,
    t: int,
)
    requires
        0 <= t < n,
        hist_contrib(pos, t, k, excl, supp_only) == 1,
    ensures
        hist_count(pos, k, n, excl, supp_only) >= 1,
    decreases n,
{
    lemma_hist_count_bounds(pos, k, n - 1, excl, supp_only);
    if t < n - 1 {
        lemma_hist_count_member(pos, k, n - 1, excl, supp_only, t);
    }
}

pub proof fn lemma_hist_count_bounds(
    pos: Seq<AtomPosition>,
    k: int,
    n: int,
    excl: int,
    supp_only: bool,
)
    ensures
        0 <= hist_count(pos, k, n, excl, supp_only) <= if n >= 0 {
            n
        } else {
            0
        },
    decreases n,
{
    if n > 0 {
        lemma_hist_count_bounds(pos, k, n - 1, excl, supp_only);
    }
}

/// Changing which site a histogram excludes from excluding `b` to excluding
/// nothing adds exactly `b`'s contribution.
pub proof fn lemma_hist_count_drop_excl(
    pos: Seq<AtomPosition>,
    k: int,
    n: int,
    b: int,
    supp_only: bool,
)
    requires
        0 <= b < n,
    ensures
        hist_count(pos, k, n, -1, supp_only) == hist_count(pos, k, n, b, supp_only) + hist_contrib(
            pos,
            b,
            k,
            -1,
            supp_only,
        ),
    decreases n,
{
    if n > 0 {
        if b == n - 1 {
            lemma_hist_count_same_excl(pos, k, n - 1, -1, b, supp_only);
        } else {
            lemma_hist_count_drop_excl(pos, k, n - 1, b, supp_only);
        }
    }
}

/// Two excluded sites that both lie outside the counted range give the same
/// counts.
pub proof fn lemma_hist_count_same_excl(
    pos: Seq<AtomPosition>,
    k: int,
    n: int,
    e1: int,
    e2: int,
    supp_only: bool,
)
    requires
        !(0 <= e1 < n),
        !(0 <= e2 < n),
    ensures
        hist_count(pos, k, n, e1, supp_only) == hist_count(pos, k, n, e2, supp_only),
    decreases n,
{
    if n > 0 {
        lemma_hist_count_same_excl(pos, k, n - 1, e1, e2, supp_only);
    }
}

/// One site's energy contribution is bounded once the tables, the support
/// energy, the cached coordination number and the support flag are.
pub proof fn lemma_site_contrib_bound(
    pos: Seq<AtomPosition>,
    energy: EnergyInput,
    support_e: i64,
    s: int,
)
    requires
        crate::energy::energy_input_bounded(energy),
        -ENERGY_ENTRY_BOUND <= support_e <= ENERGY_ENTRY_BOUND,
        0 <= s < pos.len() ==> pos[s].cn_metal <= 12 && pos[s].nn_support <= 1,
    ensures
        -14 * ENERGY_ENTRY_BOUND <= site_contrib(pos, energy, support_e, s) <= 14
            * ENERGY_ENTRY_BOUND,
{
    if occ_at(pos, s) {
        let cn = pos[s].cn_metal as int;
        let fl = pos[s].nn_support as int;
        match energy {
            EnergyInput::LinearCn(e) => {
                assert(-12 * ENERGY_ENTRY_BOUND <= e.complet_energy@[0] * cn <= 12
                    * ENERGY_ENTRY_BOUND) by (nonlinear_arith)
                    requires
                        0 <= cn <= 12,
                        -ENERGY_ENTRY_BOUND <= e.complet_energy@[0] <= ENERGY_ENTRY_BOUND,
                ;
                assert(-ENERGY_ENTRY_BOUND <= support_e * fl <= ENERGY_ENTRY_BOUND)
                    by (nonlinear_arith)
                    requires
                        0 <= fl <= 1,
                        -ENERGY_ENTRY_BOUND <= support_e <= ENERGY_ENTRY_BOUND,
                ;
            }
            EnergyInput::Cn(e) => {
                assert(-ENERGY_ENTRY_BOUND <= support_e * fl <= ENERGY_ENTRY_BOUND)
                    by (nonlinear_arith)
                    requires
                        0 <= fl <= 1,
                        -ENERGY_ENTRY_BOUND <= support_e <= ENERGY_ENTRY_BOUND,
                ;
                match e.co_ads_energy {
                    Some(co) => {
                        assert(-ENERGY_ENTRY_BOUND <= co@[cn] * fl <= ENERGY_ENTRY_BOUND)
                            by (nonlinear_arith)
                            requires
                                0 <= fl <= 1,
                                -ENERGY_ENTRY_BOUND <= co@[cn] <= ENERGY_ENTRY_BOUND,
                        ;
                    }
                    None => {}
                }
            }
        }
    }
}

/// The whole-lattice total is bounded linearly in the lattice size.
pub proof fn lemma_total_energy_bound(
    pos: Seq<AtomPosition>,
    energy: EnergyInput,
    support_e: i64,
    n: int,
)
    requires
        crate::energy::energy_input_bounded(energy),
        -ENERGY_ENTRY_BOUND <= support_e <= ENERGY_ENTRY_BOUND,
        0 <= n <= pos.len(),
        forall|s: int| 0 <= s < pos.len() ==> (#[trigger] pos[s]).cn_metal <= 12 && pos[s].nn_support
            <= 1,
    ensures
        -14 * ENERGY_ENTRY_BOUND * n <= total_energy_prefix(pos, energy, support_e, n) <= 14
            * ENERGY_ENTRY_BOUND * n,
    decreases n,
{
    if n <= 0 {
    } else {
        lemma_total_energy_bound(pos, energy, support_e, n - 1);
        lemma_site_contrib_bound(pos, energy, support_e, n - 1);
        assert(14 * ENERGY_ENTRY_BOUND * (n - 1) + 14 * ENERGY_ENTRY_BOUND == 14
            * ENERGY_ENTRY_BOUND * n) by (nonlinear_arith);
        assert(-14 * ENERGY_ENTRY_BOUND * (n - 1) + -14 * ENERGY_ENTRY_BOUND == -14
            * ENERGY_ENTRY_BOUND * n) by (nonlinear_arith);
    }
}

} // verus!
