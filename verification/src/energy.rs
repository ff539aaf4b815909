//! Coordination-based energy models.
//!
//! Energies are kept as exact fixed-point integers (physical energy times
//! 1000), so the running total of a simulation can be adjusted by per-move
//! differences without any rounding drift.

use vstd::prelude::*;

verus! {

/// Number of first-shell neighbors of every site on the close-packed lattice,
/// and so the largest possible coordination number.
pub const CN: usize = 12;

/// Bound within which every energy-table entry and the support energy must
/// lie.  With tables bounded like this, no expression formed by the energy
/// model (site energies, move differences, totals over a whole lattice) can
/// overflow an `i64`.
pub const ENERGY_ENTRY_BOUND: i64 = 0x8000_0000;

/// Energy tables of one model: the main table, and an optional
/// adsorbate-correction table applied to sites that touch the support.
#[derive(Clone, Debug)]
pub struct EnergyValues<T> {
    pub complet_energy: T,
    pub co_ads_energy: Option<T>,
}

/// The closed family of energy models: linear in the coordination number, or
/// looked up in a table indexed by the coordination number.
#[derive(Clone, Debug)]
pub enum EnergyInput {
    LinearCn(EnergyValues<[i64; 2]>),
    Cn(EnergyValues<[i64; 13]>),
}

/// Every entry of the table lies within `ENERGY_ENTRY_BOUND`.
pub open spec fn table_bounded(t: Seq<i64>) -> bool {
    forall|i: int| 0 <= i < t.len() ==> -ENERGY_ENTRY_BOUND <= #[trigger] t[i] <= ENERGY_ENTRY_BOUND
}

pub open spec fn values_bounded_lin(v: EnergyValues<[i64; 2]>) -> bool {
    &&& table_bounded(v.complet_energy@)
    &&& match v.co_ads_energy {
        Some(co) => table_bounded(co@),
        None => true,
    }
}

pub open spec fn values_bounded_cn(v: EnergyValues<[i64; 13]>) -> bool {
    &&& table_bounded(v.complet_energy@)
    &&& match v.co_ads_energy {
        Some(co) => table_bounded(co@),
        None => true,
    }
}

pub open spec fn energy_input_bounded(e: EnergyInput) -> bool {
    match e {
        EnergyInput::LinearCn(v) => values_bounded_lin(v),
        EnergyInput::Cn(v) => values_bounded_cn(v),
    }
}

/// The fixed-point energy contributed by one metal atom with coordination
/// number `cn`, support-adjacency flag `at_support`, and support energy
/// `support_e`.
pub open spec fn spec_site_energy(energy: EnergyInput, cn: int, at_support: u8, support_e: i64) -> int {
    match energy {
        EnergyInput::LinearCn(e) => e.complet_energy@[0] * cn + e.complet_energy@[1]
            + support_e * (at_support as int),
        EnergyInput::Cn(e) => match e.co_ads_energy {
            Some(co) => e.complet_energy@[cn] + co@[cn] * (at_support as int)
                + support_e * (at_support as int),
            None => e.complet_energy@[cn] + support_e * (at_support as int),
        },
    }
}

/// Evaluates one site's fixed-point energy contribution under the given model.
pub fn energy_1000_calculation(
    energy: &EnergyInput,
    cn: usize,
    at_support: u8,
    support_e: i64,
) -> (r: i64)
    requires
        cn <= CN,
        energy_input_bounded(*energy),
        -ENERGY_ENTRY_BOUND <= support_e <= ENERGY_ENTRY_BOUND,
    ensures
        r == spec_site_energy(*energy, cn as int, at_support, support_e),
{
    match energy {
        EnergyInput::LinearCn(e) => {
            proof {
                assert(-ENERGY_ENTRY_BOUND * 12 <= e.complet_energy@[0] * (cn as int)
                    <= ENERGY_ENTRY_BOUND * 12) by (nonlinear_arith)
                    requires
                        cn <= 12,
                        -ENERGY_ENTRY_BOUND <= e.complet_energy@[0] <= ENERGY_ENTRY_BOUND,
                ;
                assert(-ENERGY_ENTRY_BOUND * 255 <= support_e * (at_support as int)
                    <= ENERGY_ENTRY_BOUND * 255) by (nonlinear_arith)
                    requires
                        at_support <= 255,
                        -ENERGY_ENTRY_BOUND <= support_e <= ENERGY_ENTRY_BOUND,
                ;
            }
            e.complet_energy[0] * cn as i64 + e.complet_energy[1] + support_e * at_support as i64
        }
        EnergyInput::Cn(e) => {
            proof {
                assert(-ENERGY_ENTRY_BOUND * 255 <= support_e * (at_support as int)
                    <= ENERGY_ENTRY_BOUND * 255) by (nonlinear_arith)
                    requires
                        at_support <= 255,
                        -ENERGY_ENTRY_BOUND <= support_e <= ENERGY_ENTRY_BOUND,
                ;
            }
            if let Some(co_ads) = e.co_ads_energy {
                proof {
                    assert(-ENERGY_ENTRY_BOUND * 255 <= co_ads@[cn as int] * (at_support as int)
                        <= ENERGY_ENTRY_BOUND * 255) by (nonlinear_arith)
                        requires
                            at_support <= 255,
                            -ENERGY_ENTRY_BOUND <= co_ads@[cn as int] <= ENERGY_ENTRY_BOUND,
                    ;
                }
                e.complet_energy[cn] + co_ads[cn] * (at_support as i64)
                    + support_e * (at_support as i64)
            } else {
                e.complet_energy[cn] + support_e * (at_support as i64)
            }
        }
    }
}

/// Energy change of a site whose coordination number drops by one, under the
/// table model: its new table entry minus its old one, with the adsorbate
/// correction applied when the site touches the support.
pub open spec fn spec_from_term(ev: EnergyValues<[i64; 13]>, cn: int, at_supp: u8) -> int {
    let base = ev.complet_energy@[cn - 1] - ev.complet_energy@[cn];
    match ev.co_ads_energy {
        Some(co) => if at_supp == 1 {
            base + co@[cn - 1] - co@[cn]
        } else {
            base
        },
        None => base,
    }
}

/// Energy change of a site whose coordination number rises by one.
pub open spec fn spec_to_term(ev: EnergyValues<[i64; 13]>, cn: int, at_supp: u8) -> int {
    let base = ev.complet_energy@[cn + 1] - ev.complet_energy@[cn];
    match ev.co_ads_energy {
        Some(co) => if at_supp == 1 {
            base + co@[cn + 1] - co@[cn]
        } else {
            base
        },
        None => base,
    }
}

pub open spec fn spec_sum_from_terms(ev: EnergyValues<[i64; 13]>, l: Seq<(usize, u8)>) -> int
    decreases l.len(),
{
    if l.len() == 0 {
        0
    } else {
        spec_sum_from_terms(ev, l.drop_last()) + spec_from_term(ev, l.last().0 as int, l.last().1)
    }
}

pub open spec fn spec_sum_to_terms(ev: EnergyValues<[i64; 13]>, l: Seq<(usize, u8)>) -> int
    decreases l.len(),
{
    if l.len() == 0 {
        0
    } else {
        spec_sum_to_terms(ev, l.drop_last()) + spec_to_term(ev, l.last().0 as int, l.last().1)
    }
}

/// The contribution of the moving atom itself: it leaves a site with
/// coordination number `move_from_cn` and arrives on one whose coordination
/// number ends up `move_to_cn - 1` once the atom's own departure is counted.
pub open spec fn spec_move_end_terms(
    ev: EnergyValues<[i64; 13]>,
    move_from_cn: int,
    move_to_cn: int,
    is_from_at_support: u8,
    is_to_at_support: u8,
    support_e: i64,
) -> int {
    let co_from = match ev.co_ads_energy {
        Some(co) => co@[move_from_cn],
        None => 0,
    };
    let co_to = match ev.co_ads_energy {
        Some(co) => co@[move_to_cn - 1],
        None => 0,
    };
    -ev.complet_energy@[move_from_cn] - (if is_from_at_support == 1 {
        support_e + co_from
    } else {
        0
    }) + ev.complet_energy@[move_to_cn - 1] + (if is_to_at_support == 1 {
        support_e + co_to
    } else {
        0
    })
}

pub open spec fn spec_energy_diff_cn(
    ev: EnergyValues<[i64; 13]>,
    from_l: Seq<(usize, u8)>,
    to_l: Seq<(usize, u8)>,
    move_from_cn: int,
    move_to_cn: int,
    is_from_at_support: u8,
    is_to_at_support: u8,
    support_e: i64,
) -> int {
    spec_sum_from_terms(ev, from_l) + spec_sum_to_terms(ev, to_l) + spec_move_end_terms(
        ev,
        move_from_cn,
        move_to_cn,
        is_from_at_support,
        is_to_at_support,
        support_e,
    )
}

/// Move-local energy difference under the table model: each listed site's
/// coordination number drops (`cn_from_list`) or rises (`cn_to_list`) by
/// one, and the moving atom itself departs and arrives.
pub fn energy_diff_cn(
    energy: &EnergyValues<[i64; 13]>,
    cn_from_list: &Vec<(usize, u8)>,
    cn_to_list: &Vec<(usize, u8)>,
    move_from_cn: usize,
    move_to_cn: usize,
    is_from_at_support: u8,
    is_to_at_support: u8,
    support_e: i64,
) -> (r: i64)
    requires
        values_bounded_cn(*energy),
        -ENERGY_ENTRY_BOUND <= support_e <= ENERGY_ENTRY_BOUND,
        cn_from_list@.len() <= 12,
        cn_to_list@.len() <= 12,
        forall|i: int|
            0 <= i < cn_from_list@.len() ==> 1 <= (#[trigger] cn_from_list@[i]).0 <= 12,
        forall|i: int| 0 <= i < cn_to_list@.len() ==> (#[trigger] cn_to_list@[i]).0 <= 11,
        1 <= move_to_cn <= 12,
        move_from_cn <= 12,
    ensures
        r == spec_energy_diff_cn(
            *energy,
            cn_from_list@,
            cn_to_list@,
            move_from_cn as int,
            move_to_cn as int,
            is_from_at_support,
            is_to_at_support,
            support_e,
        ),
{
    let mut energy_diff_1000: i64 = 0;
    let ghost ev = *energy;
    let mut i: usize = 0;
    while i < cn_from_list.len()
        invariant
            values_bounded_cn(ev),
            ev == *energy,
            i <= cn_from_list@.len() <= 12,
            forall|j: int|
                0 <= j < cn_from_list@.len() ==> 1 <= (#[trigger] cn_from_list@[j]).0 <= 12,
            energy_diff_1000 == spec_sum_from_terms(ev, cn_from_list@.take(i as int)),
            -0x2_0000_0000 * (i as int) <= energy_diff_1000 <= 0x2_0000_0000 * (i as int),
        decreases cn_from_list@.len() - i,
    {
        let (cn_from, is_at_supp) = cn_from_list[i];
        energy_diff_1000 -= energy.complet_energy[cn_from];
        energy_diff_1000 += energy.complet_energy[cn_from - 1];
        if let Some(co_ads) = &energy.co_ads_energy {
            if is_at_supp == 1 {
                energy_diff_1000 -= co_ads[cn_from];
                energy_diff_1000 += co_ads[cn_from - 1];
            }
        }
        proof {
            assert(cn_from_list@.take(i + 1).drop_last() =~= cn_from_list@.take(i as int));
            assert(cn_from_list@.take(i + 1).last() == cn_from_list@[i as int]);
        }
        i += 1;
    }
    proof {
        assert(cn_from_list@.take(cn_from_list@.len() as int) =~= cn_from_list@);
    }
    let from_sum = energy_diff_1000;
    let mut i: usize = 0;
    while i < cn_to_list.len()
        invariant
            values_bounded_cn(ev),
            ev == *energy,
            i <= cn_to_list@.len() <= 12,
            forall|j: int| 0 <= j < cn_to_list@.len() ==> (#[trigger] cn_to_list@[j]).0 <= 11,
            from_sum == spec_sum_from_terms(ev, cn_from_list@),
            energy_diff_1000 == from_sum + spec_sum_to_terms(ev, cn_to_list@.take(i as int)),
            -0x18_0000_0000 <= from_sum <= 0x18_0000_0000,
            from_sum - 0x2_0000_0000 * (i as int) <= energy_diff_1000 <= from_sum + 0x2_0000_0000
                * (i as int),
        decreases cn_to_list@.len() - i,
    {
        let (cn_to, is_at_supp) = cn_to_list[i];
        energy_diff_1000 -= energy.complet_energy[cn_to];
        energy_diff_1000 += energy.complet_energy[cn_to + 1];
        if let Some(co_ads) = &energy.co_ads_energy {
            if is_at_supp == 1 {
                energy_diff_1000 -= co_ads[cn_to];
                energy_diff_1000 += co_ads[cn_to + 1];
            }
        }
        proof {
            assert(cn_to_list@.take(i + 1).drop_last() =~= cn_to_list@.take(i as int));
            assert(cn_to_list@.take(i + 1).last() == cn_to_list@[i as int]);
        }
        i += 1;
    }
    proof {
        assert(cn_to_list@.take(cn_to_list@.len() as int) =~= cn_to_list@);
    }
    energy_diff_1000 -= energy.complet_energy[move_from_cn];
    if is_from_at_support == 1 {
        energy_diff_1000 -= support_e;
        if let Some(co_ads) = &energy.co_ads_energy {
            energy_diff_1000 -= co_ads[move_from_cn];
        }
    }
    energy_diff_1000 += energy.complet_energy[move_to_cn - 1];
    if is_to_at_support == 1 {
        energy_diff_1000 += support_e;
        if let Some(co_ads) = &energy.co_ads_energy {
            energy_diff_1000 += co_ads[move_to_cn - 1];
        }
    }
    energy_diff_1000
}

pub open spec fn spec_energy_diff_l_cn(
    energy: [i64; 2],
    cn_from: int,
    cn_to: int,
    from_at_support: u8,
    to_at_support: u8,
    support_e: i64,
) -> int {
    2 * (cn_to * energy@[0] + energy@[1]) + support_e * (to_at_support as int) - 2 * (cn_from
        * energy@[0] + energy@[1]) - support_e * (from_at_support as int)
}

/// Move-local energy difference under the linear model, directly from the
/// coordination numbers of the two endpoints.
pub fn energy_diff_l_cn(
    energy: [i64; 2],
    cn_from: usize,
    cn_to: usize,
    from_at_support: u8,
    to_at_support: u8,
    support_e: i64,
) -> (r: i64)
    requires
        table_bounded(energy@),
        -ENERGY_ENTRY_BOUND <= support_e <= ENERGY_ENTRY_BOUND,
        cn_from <= 12,
        cn_to <= 12,
    ensures
        r == spec_energy_diff_l_cn(
            energy,
            cn_from as int,
            cn_to as int,
            from_at_support,
            to_at_support,
            support_e,
        ),
{
    proof {
        assert(-12 * ENERGY_ENTRY_BOUND <= (cn_to as int) * energy@[0] <= 12 * ENERGY_ENTRY_BOUND)
            by (nonlinear_arith)
            requires
                cn_to <= 12,
                -ENERGY_ENTRY_BOUND <= energy@[0] <= ENERGY_ENTRY_BOUND,
        ;
        assert(-12 * ENERGY_ENTRY_BOUND <= (cn_from as int) * energy@[0] <= 12 * ENERGY_ENTRY_BOUND)
            by (nonlinear_arith)
            requires
                cn_from <= 12,
                -ENERGY_ENTRY_BOUND <= energy@[0] <= ENERGY_ENTRY_BOUND,
        ;
        assert(-255 * ENERGY_ENTRY_BOUND <= support_e * (to_at_support as int) <= 255
            * ENERGY_ENTRY_BOUND) by (nonlinear_arith)
            requires
                to_at_support <= 255,
                -ENERGY_ENTRY_BOUND <= support_e <= ENERGY_ENTRY_BOUND,
        ;
        assert(-255 * ENERGY_ENTRY_BOUND <= support_e * (from_at_support as int) <= 255
            * ENERGY_ENTRY_BOUND) by (nonlinear_arith)
            requires
                from_at_support <= 255,
                -ENERGY_ENTRY_BOUND <= support_e <= ENERGY_ENTRY_BOUND,
        ;
    }
    let e = (2 * ((cn_to as i64) * energy[0] + energy[1])) + (support_e * to_at_support as i64)
        - (2 * ((cn_from as i64) * energy[0] + energy[1]))
        - (support_e * from_at_support as i64);
    e
}

/// Table-energy change of one site whose coordination number goes from
/// `cn_old` to `cn_new`.
pub fn add_energy(energy: &EnergyValues<[i64; 13]>, cn_old: usize, cn_new: usize) -> (r: i64)
    requires
        values_bounded_cn(*energy),
        cn_old <= 12,
        cn_new <= 12,
    ensures
        r == energy.complet_energy@[cn_new as int] - energy.complet_energy@[cn_old as int],
{
    energy.complet_energy[cn_new] - energy.complet_energy[cn_old]
}

/// Like `add_energy`, with the adsorbate-correction table applied; the model
/// must have that table.
pub fn add_energy_supp(energy: &EnergyValues<[i64; 13]>, cn_old: usize, cn_new: usize) -> (r: i64)
    requires
        values_bounded_cn(*energy),
        energy.co_ads_energy is Some,
        cn_old <= 12,
        cn_new <= 12,
    ensures
        r == energy.complet_energy@[cn_new as int] + energy.co_ads_energy->Some_0@[cn_new as int]
            - (energy.complet_energy@[cn_old as int] + energy.co_ads_energy->Some_0@[cn_old as int]),
{
    match &energy.co_ads_energy {
        Some(co) => energy.complet_energy[cn_new] + co[cn_new] - (energy.complet_energy[cn_old]
            + co[cn_old]),
        None => unreached(),
    }
}

/// Slope of the linear model used by the fixed linear-energy helper.
pub const M_BETA: i64 = -330;

/// Offset of the linear model used by the fixed linear-energy helper.
pub const M_ALPHA: i64 = 3960;

/// Fixed-point energy of one atom under the built-in linear model
/// `E(cn) = M_BETA * cn + M_ALPHA`.
pub fn energy_calculation(atom: &u32, cn: &Vec<usize>) -> (r: i64)
    requires
        (*atom as int) < cn@.len(),
        cn@[*atom as int] <= 12,
    ensures
        r == cn@[*atom as int] * M_BETA + M_ALPHA,
{
    let energy_1000 = cn[*atom as usize] as i64 * M_BETA + M_ALPHA;
    energy_1000
}

} // verus!
