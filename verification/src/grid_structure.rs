//! The immutable lattice topology: every site's first neighbor shell, and,
//! for the table-based energy model, the per-adjacent-pair decomposition of
//! neighbor shells into "via one endpoint only" groups.
//!
//! The tables come from outside (they are parsed from geometry files by the
//! host program); `is_valid` checks every structural property the engine
//! relies on, once, before a simulation starts.

use crate::lattice::MAX_NSITES;
use crate::sites::distinct_sites;
use vstd::prelude::*;

verus! {

broadcast use vstd::std_specs::hash::group_hash_axioms;

/// Packs an ordered site pair into one map key.
pub open spec fn spec_pair_key(lo: u32, hi: u32) -> u64 {
    (lo as u64 + hi as u64 * 0x1_0000_0000) as u64
}

/// The lattice topology tables.
pub struct GridStructure {
    pub nn: Vec<[u32; 12]>,
    pub nn_pair_no_intersec: std::collections::HashMap<u64, [[u32; 7]; 2]>,
}

/// The neighbor shell of site `s` lists twelve distinct valid sites, none of
/// them `s` itself.
pub open spec fn grid_nn_ok(nn: Seq<[u32; 12]>, s: int) -> bool {
    &&& forall|j: int| 0 <= j < 12 ==> (#[trigger] nn[s]@[j]) < nn.len() && nn[s]@[j] as int != s
    &&& distinct_sites(nn[s]@)
}

/// The neighbor table is well formed: bounded, well-formed shells, and
/// symmetric.
pub open spec fn grid_topology_ok(nn: Seq<[u32; 12]>) -> bool {
    &&& nn.len() <= MAX_NSITES
    &&& forall|s: int| 0 <= s < nn.len() ==> grid_nn_ok(nn, s)
    &&& forall|s: int, j: int|
        0 <= s < nn.len() && 0 <= j < 12 ==> nn[(#[trigger] nn[s]@[j]) as int]@.contains(s as u32)
}

/// `arr` lists exactly the sites reached from `x` but not from `y` and other
/// than `y`: seven distinct such sites, and every shell entry of `x` of that
/// kind is among them.
pub open spec fn side_ok(nn: Seq<[u32; 12]>, arr: [u32; 7], x: int, y: int) -> bool {
    &&& distinct_sites(arr@)
    &&& forall|j: int|
        0 <= j < 7 ==> nn[x]@.contains(#[trigger] arr@[j]) && !nn[y]@.contains(arr@[j]) && arr@[j]
            as int != y
    &&& forall|j: int|
        0 <= j < 12 && !nn[y]@.contains(#[trigger] nn[x]@[j]) && nn[x]@[j] as int != y
            ==> arr@.contains(nn[x]@[j])
}

/// The decomposition entry for the adjacent pair `a < b` is present and both
/// of its sides are exact.
pub open spec fn pair_entry_ok(
    nn: Seq<[u32; 12]>,
    pairs: Map<u64, [[u32; 7]; 2]>,
    a: int,
    b: int,
) -> bool {
    let key = spec_pair_key(a as u32, b as u32);
    &&& pairs.contains_key(key)
    &&& side_ok(nn, pairs[key][0], a, b)
    &&& side_ok(nn, pairs[key][1], b, a)
}

/// The whole structure is well formed: a symmetric neighbor table with a
/// correct decomposition entry for every adjacent pair.
pub open spec fn grid_wf(g: GridStructure) -> bool {
    &&& grid_topology_ok(g.nn@)
    &&& forall|s: int, j: int|
        0 <= s < g.nn@.len() && 0 <= j < 12 && s < (#[trigger] g.nn@[s]@[j]) as int
            ==> pair_entry_ok(g.nn@, g.nn_pair_no_intersec@, s, g.nn@[s]@[j] as int)
}

fn arr12_contains(arr: &[u32; 12], x: u32) -> (r: bool)
    ensures
        r == arr@.contains(x),
{
    let mut j: usize = 0;
    while j < 12
        invariant
            j <= 12,
            forall|i: int| 0 <= i < j ==> arr@[i] != x,
        decreases 12 - j,
    {
        if arr[j] == x {
            return true;
        }
        j += 1;
    }
    false
}

fn arr7_contains(arr: &[u32; 7], x: u32) -> (r: bool)
    ensures
        r == arr@.contains(x),
{
    let mut j: usize = 0;
    while j < 7
        invariant
            j <= 7,
            forall|i: int| 0 <= i < j ==> arr@[i] != x,
        decreases 7 - j,
    {
        if arr[j] == x {
            return true;
        }
        j += 1;
    }
    false
}

fn arr7_distinct(arr: &[u32; 7]) -> (r: bool)
    ensures
        r == distinct_sites(arr@),
{
    let mut j: usize = 0;
    while j < 7
        invariant
            j <= 7,
            forall|i1: int, i2: int| 0 <= i1 < i2 < arr@.len() && i1 < j ==> arr@[i1] != arr@[i2],
        decreases 7 - j,
    {
        let mut j2: usize = j + 1;
        while j2 < 7
            invariant
                j < j2 <= 7,
                forall|i2: int| j < i2 < j2 ==> arr@[j as int] != arr@[i2],
            decreases 7 - j2,
        {
            if arr[j] == arr[j2] {
                return false;
            }
            j2 += 1;
        }
        j += 1;
    }
    true
}

/// Checks that `arr` is one exact side of the decomposition of the adjacent
/// pair `(x, y)`.
fn check_side(nn: &Vec<[u32; 12]>, arr: &[u32; 7], x: u32, y: u32) -> (r: bool)
    requires
        (x as int) < nn@.len(),
        (y as int) < nn@.len(),
    ensures
        r == side_ok(nn@, *arr, x as int, y as int),
{
    if !arr7_distinct(arr) {
        return false;
    }
    let mut j: usize = 0;
    while j < 7
        invariant
            j <= 7,
            (x as int) < nn@.len(),
            (y as int) < nn@.len(),
            distinct_sites(arr@),
            forall|i: int|
                0 <= i < j ==> nn@[x as int]@.contains(#[trigger] arr@[i]) && !nn@[y as int]@.contains(
                    arr@[i],
                ) && arr@[i] as int != y,
        decreases 7 - j,
    {
        let e = arr[j];
        if !arr12_contains(&nn[x as usize], e) || arr12_contains(&nn[y as usize], e) || e == y {
            return false;
        }
        j += 1;
    }
    let mut j: usize = 0;
    while j < 12
        invariant
            j <= 12,
            (x as int) < nn@.len(),
            (y as int) < nn@.len(),
            distinct_sites(arr@),
            forall|i: int|
                0 <= i < 7 ==> nn@[x as int]@.contains(#[trigger] arr@[i]) && !nn@[y as int]@.contains(
                    arr@[i],
                ) && arr@[i] as int != y,
            forall|i: int|
                0 <= i < j && !nn@[y as int]@.contains(#[trigger] nn@[x as int]@[i]) && nn@[x as int]@[i]
                    as int != y ==> arr@.contains(nn@[x as int]@[i]),
        decreases 12 - j,
    {
        let t = nn[x as usize][j];
        if !arr12_contains(&nn[y as usize], t) && t != y {
            if !arr7_contains(arr, t) {
                return false;
            }
        }
        j += 1;
    }
    true
}

impl GridStructure {
    /// Builds the structure from the parsed tables; `is_valid` decides
    /// whether a simulation may run on it.
    pub fn new(nn: Vec<[u32; 12]>, nn_pair_no_intersec: std::collections::HashMap<u64, [[u32; 7]; 2]>) -> (r:
        GridStructure)
        ensures
            r.nn == nn,
            r.nn_pair_no_intersec == nn_pair_no_intersec,
    {
        GridStructure { nn, nn_pair_no_intersec }
    }

    /// Decides every structural property the engine relies on: shell
    /// validity, symmetry of the neighbor relation, and exactness of the
    /// decomposition entry of every adjacent pair.
    pub fn is_valid(&self) -> (r: bool)
        ensures
            r == grid_wf(*self),
    {
        let n = self.nn.len();
        if n > MAX_NSITES {
            return false;
        }
        let mut s: usize = 0;
        while s < n
            invariant
                n == self.nn@.len(),
                n <= MAX_NSITES,
                s <= n,
                forall|i: int| 0 <= i < s ==> grid_nn_ok(self.nn@, i),
                forall|i: int, j: int|
                    0 <= i < s && 0 <= j < 12 ==> self.nn@[(#[trigger] self.nn@[i]@[j]) as int]@.contains(
                        i as u32,
                    ),
                forall|i: int, j: int|
                    0 <= i < s && 0 <= j < 12 && i < (#[trigger] self.nn@[i]@[j]) as int
                        ==> pair_entry_ok(
                        self.nn@,
                        self.nn_pair_no_intersec@,
                        i,
                        self.nn@[i]@[j] as int,
                    ),
            decreases n - s,
        {
            let shell = self.nn[s];
            let mut j: usize = 0;
            while j < 12
                invariant
                    n == self.nn@.len(),
                    n <= MAX_NSITES,
                    s < n,
                    shell == self.nn@[s as int],
                    j <= 12,
                    forall|i: int|
                        0 <= i < j ==> (#[trigger] shell@[i]) < n && shell@[i] as int != s as int,
                    forall|i1: int, i2: int|
                        0 <= i1 < i2 < 12 && i1 < j ==> shell@[i1] != shell@[i2],
                    forall|i: int|
                        0 <= i < j ==> self.nn@[(#[trigger] shell@[i]) as int]@.contains(s as u32),
                    forall|i: int|
                        0 <= i < j && (s as int) < (#[trigger] shell@[i]) as int ==> pair_entry_ok(
                            self.nn@,
                            self.nn_pair_no_intersec@,
                            s as int,
                            shell@[i] as int,
                        ),
                decreases 12 - j,
            {
                let t = shell[j];
                if t as usize >= n || t as usize == s {
                    proof {
                        assert(self.nn@[s as int]@[j as int] == t);
                        assert(!grid_nn_ok(self.nn@, s as int));
                        assert(!grid_topology_ok(self.nn@));
                    }
                    return false;
                }
                let mut j2: usize = j + 1;
                while j2 < 12
                    invariant
                        n == self.nn@.len(),
                        s < n,
                        j < j2 <= 12,
                        shell == self.nn@[s as int],
                        forall|i2: int| j < i2 < j2 ==> shell@[j as int] != shell@[i2],
                    decreases 12 - j2,
                {
                    if shell[j] == shell[j2] {
                        proof {
                            assert(shell@[j as int] == shell@[j2 as int]);
                            assert(!distinct_sites(self.nn@[s as int]@));
                            assert(!grid_nn_ok(self.nn@, s as int));
                            assert(!grid_topology_ok(self.nn@));
                        }
                        return false;
                    }
                    j2 += 1;
                }
                if !arr12_contains(&self.nn[t as usize], s as u32) {
                    proof {
                        assert(!self.nn@[t as int]@.contains(s as u32));
                        assert(self.nn@[s as int]@[j as int] == t);
                        assert(!grid_topology_ok(self.nn@));
                    }
                    return false;
                }
                if (s as u32) < t {
                    let key = s as u64 + (t as u64) * 0x1_0000_0000;
                    proof {
                        assert(key == spec_pair_key(s as u32, t));
                    }
                    match self.nn_pair_no_intersec.get(&key) {
                        Some(entry) => {
                            let e0 = entry[0];
                            let e1 = entry[1];
                            if !check_side(&self.nn, &e0, s as u32, t) {
                                return false;
                            }
                            if !check_side(&self.nn, &e1, t, s as u32) {
                                return false;
                            }
                        }
                        None => {
                            return false;
                        }
                    }
                }
                j += 1;
            }
            s += 1;
        }
        true
    }
}

/// Looks up the decomposition entry of an adjacent pair and orients it so
/// that the first group belongs to `move_from` and the second to `move_to`.
pub fn no_int_nn_from_move(
    move_from: u32,
    move_to: u32,
    nn_pair_no_intersec: &std::collections::HashMap<u64, [[u32; 7]; 2]>,
) -> (r: ([u32; 7], [u32; 7]))
    requires
        move_from != move_to,
        nn_pair_no_intersec@.contains_key(
            spec_pair_key(
                if move_from < move_to {
                    move_from
                } else {
                    move_to
                },
                if move_from < move_to {
                    move_to
                } else {
                    move_from
                },
            ),
        ),
    ensures
        ({
            let key = spec_pair_key(
                if move_from < move_to {
                    move_from
                } else {
                    move_to
                },
                if move_from < move_to {
                    move_to
                } else {
                    move_from
                },
            );
            let entry = nn_pair_no_intersec@[key];
            if move_to > move_from {
                r == (entry[0], entry[1])
            } else {
                r == (entry[1], entry[0])
            }
        }),
{
    let lo = if move_from < move_to {
        move_from
    } else {
        move_to
    };
    let hi = if move_from < move_to {
        move_to
    } else {
        move_from
    };
    let key = lo as u64 + (hi as u64) * 0x1_0000_0000;
    let no_int = *nn_pair_no_intersec.get(&key).unwrap();
    if move_to > move_from {
        (no_int[0], no_int[1])
    } else {
        (no_int[1], no_int[0])
    }
}

} // verus!
