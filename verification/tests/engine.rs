use mc_cluster::energy::{
    energy_1000_calculation, energy_calculation, energy_diff_cn, energy_diff_l_cn, EnergyInput,
    EnergyValues,
};
use mc_cluster::grid_structure::GridStructure;
use mc_cluster::lattice::AtomPosition;
use mc_cluster::listdict::ListDict;
use mc_cluster::simulation::Simulation;
use rand::SeedableRng;

fn linear_model() -> EnergyInput {
    EnergyInput::LinearCn(EnergyValues {
        complet_energy: [-330, 3960],
        co_ads_energy: None,
    })
}

fn table() -> [i64; 13] {
    let mut t = [0i64; 13];
    for (cn, v) in t.iter_mut().enumerate() {
        *v = 12000 - 1000 * cn as i64;
    }
    t
}

#[test]
fn site_energy_linear() {
    let e = linear_model();
    assert_eq!(energy_1000_calculation(&e, 1, 0, 0), 3630);
    assert_eq!(energy_1000_calculation(&e, 12, 0, 0), -330 * 12 + 3960);
}

#[test]
fn site_energy_table_with_support() {
    let e = EnergyInput::Cn(EnergyValues {
        complet_energy: table(),
        co_ads_energy: None,
    });
    assert_eq!(energy_1000_calculation(&e, 3, 0, 500), 9000);
    assert_eq!(energy_1000_calculation(&e, 3, 1, 500), 9500);
}

#[test]
fn fixed_linear_helper() {
    assert_eq!(energy_calculation(&2, &vec![5usize, 4, 1]), 1 * -330 + 3960);
}

#[test]
fn diff_linear_matches_formula() {
    // moving an atom with cn 3 onto a site that will have cn 2
    let d = energy_diff_l_cn([-330, 3960], 3, 2, 0, 0, 0);
    assert_eq!(d, 2 * (2 * -330 + 3960) - 2 * (3 * -330 + 3960));
}

#[test]
fn diff_table_matches_terms() {
    let ev = EnergyValues {
        complet_energy: table(),
        co_ads_energy: None,
    };
    let from_list = vec![(3usize, 0u8)];
    let to_list = vec![(4usize, 0u8)];
    let d = energy_diff_cn(&ev, &from_list, &to_list, 2, 5, 0, 0, 0);
    let expect = (table()[2] - table()[3]) + (table()[5] - table()[4]) - table()[2] + table()[4];
    assert_eq!(d, expect);
}

#[test]
fn move_set_add_remove_sample() {
    let mut moves = ListDict::new(16);
    moves.add_item(1, 2, None);
    moves.add_item(1, 2, None); // idempotent
    moves.add_item(3, 4, None);
    moves.add_item(5, 6, None);
    assert_eq!(moves._len(), 3);
    assert!(moves.contains_move(1, 2));
    moves.remove_item(1, 2);
    assert!(!moves.contains_move(1, 2));
    moves.remove_item(1, 2); // absent: no-op
    assert_eq!(moves._len(), 2);

    let mut rng = rand::rngs::SmallRng::seed_from_u64(7);
    for _ in 0..50 {
        let (f, t, _) = moves.choose_random_item_mc(&mut rng);
        assert!(moves.contains_move(f, t));
    }
    // sampling from a singleton must return that element, so the random
    // index below the length really is below the length
    let mut single = ListDict::new(4);
    single.add_item(9, 10, None);
    let (f, t, _) = single.choose_random_item_mc(&mut rng);
    assert_eq!((f, t), (9, 10));
}

#[test]
fn move_set_matches_brute_force_after_interleaving() {
    let mut moves = ListDict::new(64);
    let mut model: Vec<(u32, u32)> = Vec::new();
    let ops: [(bool, u32, u32); 9] = [
        (true, 0, 1),
        (true, 2, 3),
        (true, 0, 1),
        (false, 2, 3),
        (true, 4, 5),
        (true, 6, 7),
        (false, 0, 1),
        (true, 2, 3),
        (false, 9, 9),
    ];
    for (add, f, t) in ops {
        if add {
            if !model.contains(&(f, t)) {
                model.push((f, t));
            }
            moves.add_item(f, t, None);
        } else {
            model.retain(|p| *p != (f, t));
            moves.remove_item(f, t);
        }
    }
    assert_eq!(moves._len(), model.len());
    for (f, t) in model {
        assert!(moves.contains_move(f, t));
    }
}

#[test]
fn acceptance_always_on_downhill() {
    let sim = two_atom_simulation();
    assert!(sim.is_acceptance_criteria_fulfilled(0, false));
    assert!(sim.is_acceptance_criteria_fulfilled(-5, false));
    assert!(sim.is_acceptance_criteria_fulfilled(-5, true));
    assert!(!sim.is_acceptance_criteria_fulfilled(5, false));
    assert!(sim.is_acceptance_criteria_fulfilled(5, true));
}

/// A small complete topology: 13 sites, each adjacent to the other twelve.
fn complete_nn() -> Vec<[u32; 12]> {
    let mut nn = Vec::new();
    for s in 0u32..13 {
        let mut shell = [0u32; 12];
        let mut i = 0;
        for t in 0u32..13 {
            if t != s {
                shell[i] = t;
                i += 1;
            }
        }
        nn.push(shell);
    }
    nn
}

/// A periodic face-centered-cubic box: every site has twelve distinct
/// neighbors, the relation is symmetric, and every adjacent pair's shells
/// overlap in exactly four sites, so the no-intersect groups have seven.
fn fcc_grid() -> (Vec<[u32; 12]>, std::collections::HashMap<u64, [[u32; 7]; 2]>) {
    let l: i32 = 6;
    let mut ids: std::collections::HashMap<(i32, i32, i32), u32> = std::collections::HashMap::new();
    let mut coords = Vec::new();
    for x in 0..l {
        for y in 0..l {
            for z in 0..l {
                if (x + y + z) % 2 == 0 {
                    ids.insert((x, y, z), coords.len() as u32);
                    coords.push((x, y, z));
                }
            }
        }
    }
    let offs = [
        (1, 1, 0),
        (1, -1, 0),
        (-1, 1, 0),
        (-1, -1, 0),
        (1, 0, 1),
        (1, 0, -1),
        (-1, 0, 1),
        (-1, 0, -1),
        (0, 1, 1),
        (0, 1, -1),
        (0, -1, 1),
        (0, -1, -1),
    ];
    let wrap = |v: i32| ((v % l) + l) % l;
    let nn: Vec<[u32; 12]> = coords
        .iter()
        .map(|&(x, y, z)| {
            let mut shell = [0u32; 12];
            for (i, &(dx, dy, dz)) in offs.iter().enumerate() {
                shell[i] = ids[&(wrap(x + dx), wrap(y + dy), wrap(z + dz))];
            }
            shell
        })
        .collect();
    let mut pairs = std::collections::HashMap::new();
    for a in 0..nn.len() as u32 {
        for &b in nn[a as usize].iter() {
            if a < b {
                let a_only: Vec<u32> = nn[a as usize]
                    .iter()
                    .copied()
                    .filter(|x| !nn[b as usize].contains(x) && *x != b)
                    .collect();
                let b_only: Vec<u32> = nn[b as usize]
                    .iter()
                    .copied()
                    .filter(|x| !nn[a as usize].contains(x) && *x != a)
                    .collect();
                assert_eq!(a_only.len(), 7);
                assert_eq!(b_only.len(), 7);
                let mut e = [[0u32; 7]; 2];
                e[0].copy_from_slice(&a_only);
                e[1].copy_from_slice(&b_only);
                pairs.insert(a as u64 + ((b as u64) << 32), e);
            }
        }
    }
    (nn, pairs)
}

/// A well-formed simulation on the fcc box holding two adjacent atoms.
fn two_atom_fcc(energy: EnergyInput) -> Simulation {
    let (nn, pairs) = fcc_grid();
    let grid = GridStructure::new(nn.clone(), pairs);
    assert!(grid.is_valid());
    let nsites = nn.len();
    let s0 = 0u32;
    let s1 = nn[0][0];
    let mut atom_pos: Vec<AtomPosition> = (0..nsites)
        .map(|s| AtomPosition {
            occ: if s as u32 == s0 || s as u32 == s1 { 1 } else { 0 },
            cn_metal: 0,
            nn_support: 0,
            nn: nn[s],
        })
        .collect();
    for s in 0..nsites {
        let cn = atom_pos[s].nn.iter().filter(|&&t| atom_pos[t as usize].occ == 1).count();
        atom_pos[s].cn_metal = cn;
    }
    let mut cn_dict = [0u32; 13];
    for p in atom_pos.iter() {
        if p.occ == 1 {
            cn_dict[p.cn_metal] += 1;
        }
    }
    let mut onlyocc = std::collections::HashSet::new();
    onlyocc.insert(s0);
    onlyocc.insert(s1);
    let mut possible_moves = ListDict::new(nsites as u32);
    for &f in [s0, s1].iter() {
        for &t in atom_pos[f as usize].nn.iter() {
            if atom_pos[t as usize].occ == 0 && atom_pos[t as usize].cn_metal > 1 {
                possible_moves.add_item(f, t, None);
            }
        }
    }
    let mut sim = Simulation {
        atom_pos,
        niter: 0,
        number_all_atoms: 2,
        onlyocc,
        possible_moves,
        total_energy_1000: 0,
        cn_dict,
        cn_dict_at_supp: [0u32; 13],
        energy,
        gridstructure: grid,
        support_e: 0,
    };
    sim.total_energy_1000 = sim.recompute_total_energy_1000();
    sim
}

fn two_atom_simulation() -> Simulation {
    two_atom_fcc(linear_model())
}

fn run_one_accepted_move(sim: &mut Simulation) -> (u32, u32, i64) {
    // a legal target: empty, adjacent to the first atom, more than one
    // occupied neighbor
    let s0 = 0u32;
    let t = sim.atom_pos[s0 as usize]
        .nn
        .iter()
        .copied()
        .find(|&t| sim.atom_pos[t as usize].occ == 0 && sim.atom_pos[t as usize].cn_metal > 1)
        .expect("no legal target next to the first atom");
    let diff = sim.energy_change_by_move(s0, t);
    sim.perform_move(s0, t, diff, true);
    sim.update_possible_moves(s0, t);
    (s0, t, diff)
}

#[test]
fn two_atoms_linear_start_energy() {
    let sim = two_atom_simulation();
    // two atoms with coordination number 1 each
    assert_eq!(sim.total_energy_1000, 2 * (-330 + 3960));
    assert_eq!(sim.cn_dict[1], 2);
}

#[test]
fn accepted_move_keeps_state_consistent() {
    let mut sim = two_atom_simulation();
    let before = sim.recompute_total_energy_1000();
    let (f, t, diff) = run_one_accepted_move(&mut sim);
    let after = sim.recompute_total_energy_1000();
    // the move-local difference is the exact scratch difference
    assert_eq!(diff, after - before);
    assert_eq!(sim.total_energy_1000, before + diff);
    assert_eq!(sim.total_energy_1000, after);
    assert_eq!(sim.atom_pos[f as usize].occ, 0);
    assert_eq!(sim.atom_pos[t as usize].occ, 1);
    let nsites = sim.atom_pos.len();
    // coordination numbers recomputed from scratch agree
    for s in 0..nsites {
        let mut cn = 0usize;
        for &n in sim.atom_pos[s].nn.iter() {
            if sim.atom_pos[n as usize].occ == 1 {
                cn += 1;
            }
        }
        assert_eq!(sim.atom_pos[s].cn_metal, cn);
    }
    // histogram matches the per-coordination occupied-site count
    for k in 0..13usize {
        let count = (0..nsites)
            .filter(|&s| sim.atom_pos[s].occ == 1 && sim.atom_pos[s].cn_metal == k)
            .count() as u32;
        assert_eq!(sim.cn_dict[k], count);
    }
    // the move collection equals the brute-force legal-move set
    for f2 in 0..nsites as u32 {
        for t2 in 0..nsites as u32 {
            let legal = sim.atom_pos[f2 as usize].occ == 1
                && sim.atom_pos[t2 as usize].occ == 0
                && sim.atom_pos[f2 as usize].nn.contains(&t2)
                && sim.atom_pos[t2 as usize].cn_metal > 1;
            assert_eq!(sim.possible_moves.contains_move(f2, t2), legal);
        }
    }
}

#[test]
fn table_move_diff_matches_brute_force() {
    let mut sim = two_atom_fcc(EnergyInput::Cn(EnergyValues {
        complet_energy: table(),
        co_ads_energy: None,
    }));
    let before = sim.recompute_total_energy_1000();
    let (_, _, diff) = run_one_accepted_move(&mut sim);
    let after = sim.recompute_total_energy_1000();
    assert_eq!(diff, after - before);
    assert_eq!(sim.total_energy_1000, after);
}

#[test]
fn fcc_grid_is_well_formed() {
    let (nn, pairs) = fcc_grid();
    let grid = GridStructure::new(nn, pairs);
    assert!(grid.is_valid());
}

#[test]
fn grid_validation_rejects_broken_shell() {
    let nn = complete_nn();
    // without decomposition entries the complete grid is not fully valid
    // for the table model, so validity requires the pair entries; a grid
    // with a broken shell is always invalid
    let mut broken = nn.clone();
    broken[0][0] = 0; // self neighbor
    let g = GridStructure::new(broken, std::collections::HashMap::new());
    assert!(!g.is_valid());
}
