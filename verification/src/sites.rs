//! Lists of lattice sites, and sums of an integer-valued function over them.
//!
//! The incremental bookkeeping of the engine is proved against from-scratch
//! definitions that sum over every site of the lattice.  The lemmas here
//! relate such whole-lattice sums to sums over short explicit lists of
//! sites, which is exactly the shape of the engine's O(1) per-move work.

use vstd::prelude::*;

verus! {

/// No site occurs twice in `l`.
pub open spec fn distinct_sites(l: Seq<u32>) -> bool {
    forall|i: int, j: int| 0 <= i < j < l.len() ==> l[i] != l[j]
}

/// Sum of `f(0) + f(1) + ... + f(n-1)`.
pub open spec fn sum_over_range(f: spec_fn(int) -> int, n: int) -> int
    decreases n,
{
    if n <= 0 {
        0
    } else {
        sum_over_range(f, n - 1) + f(n - 1)
    }
}

/// Sum of `f` over the sites listed in `l`, in order.
pub open spec fn sum_over_seq(f: spec_fn(int) -> int, l: Seq<u32>) -> int
    decreases l.len(),
{
    if l.len() == 0 {
        0
    } else {
        sum_over_seq(f, l.drop_last()) + f(l.last() as int)
    }
}

pub proof fn lemma_sum_range_congruent(f: spec_fn(int) -> int, g: spec_fn(int) -> int, n: int)
    requires
        forall|s: int| 0 <= s < n ==> #[trigger] f(s) == g(s),
    ensures
        sum_over_range(f, n) == sum_over_range(g, n),
    decreases n,
{
    if n > 0 {
        lemma_sum_range_congruent(f, g, n - 1);
    }
}

pub proof fn lemma_sum_range_linear(
    f: spec_fn(int) -> int,
    g: spec_fn(int) -> int,
    h: spec_fn(int) -> int,
    n: int,
)
    requires
        forall|s: int| 0 <= s < n ==> #[trigger] h(s) == f(s) + g(s),
    ensures
        sum_over_range(h, n) == sum_over_range(f, n) + sum_over_range(g, n),
    decreases n,
{
    if n > 0 {
        lemma_sum_range_linear(f, g, h, n - 1);
    }
}

pub proof fn lemma_sum_range_zero(f: spec_fn(int) -> int, n: int)
    requires
        forall|s: int| 0 <= s < n ==> #[trigger] f(s) == 0,
    ensures
        sum_over_range(f, n) == 0,
    decreases n,
{
    if n > 0 {
        lemma_sum_range_zero(f, n - 1);
    }
}

pub proof fn lemma_sum_seq_congruent(f: spec_fn(int) -> int, g: spec_fn(int) -> int, l: Seq<u32>)
    requires
        forall|j: int| 0 <= j < l.len() ==> f(#[trigger] l[j] as int) == g(l[j] as int),
    ensures
        sum_over_seq(f, l) == sum_over_seq(g, l),
    decreases l.len(),
{
    if l.len() > 0 {
        lemma_sum_seq_congruent(f, g, l.drop_last());
    }
}

/// Removing one occurrence of a value from the sum: if `g` agrees with `f`
/// everywhere except at `t`, where `g(t) == 0`, the range sums differ by
/// exactly `f(t)`.
pub proof fn lemma_sum_range_minus_point(
    f: spec_fn(int) -> int,
    g: spec_fn(int) -> int,
    n: int,
    t: int,
)
    requires
        0 <= t < n,
        g(t) == 0,
        forall|s: int| 0 <= s < n && s != t ==> #[trigger] g(s) == f(s),
    ensures
        sum_over_range(f, n) == sum_over_range(g, n) + f(t),
    decreases n,
{
    if t == n - 1 {
        lemma_sum_range_congruent(f, g, n - 1);
    } else {
        lemma_sum_range_minus_point(f, g, n - 1, t);
    }
}

/// A function that vanishes outside a duplicate-free list sums over the whole
/// range to its sum over that list.
pub proof fn lemma_sum_concentrated(f: spec_fn(int) -> int, l: Seq<u32>, n: int)
    requires
        n <= 0x1_0000_0000,
        distinct_sites(l),
        forall|j: int| 0 <= j < l.len() ==> 0 <= #[trigger] l[j] < n,
        forall|s: int| 0 <= s < n && !l.contains(s as u32) ==> #[trigger] f(s) == 0,
    ensures
        sum_over_range(f, n) == sum_over_seq(f, l),
    decreases l.len(),
{
    if l.len() == 0 {
        assert forall|s: int| 0 <= s < n implies #[trigger] f(s) == 0 by {
            assert(!l.contains(s as u32));
        }
        lemma_sum_range_zero(f, n);
    } else {
        let t = l.last() as int;
        let g = |s: int| if s == t { 0int } else { f(s) };
        lemma_sum_range_minus_point(f, g, n, t);
        assert forall|j: int| 0 <= j < l.drop_last().len() implies 0 <= #[trigger] l.drop_last()[j]
            < n by {
            assert(l.drop_last()[j] == l[j]);
        }
        assert forall|s: int| 0 <= s < n && !l.drop_last().contains(s as u32) implies #[trigger] g(
            s,
        ) == 0 by {
            if s != t {
                if l.contains(s as u32) {
                    let j = choose|j: int| 0 <= j < l.len() && l[j] == s as u32;
                    if j < l.len() - 1 {
                        assert(l.drop_last()[j] == s as u32);
                        assert(l.drop_last().contains(s as u32));
                    } else {
                        assert(l[j] == l.last());
                    }
                    assert(false);
                } else {
                    assert(f(s) == 0);
                }
            }
        }
        lemma_sum_concentrated(g, l.drop_last(), n);
        assert forall|j: int| 0 <= j < l.drop_last().len() implies f(
            #[trigger] l.drop_last()[j] as int,
        ) == g(l.drop_last()[j] as int) by {
            assert(l.drop_last()[j] == l[j]);
            assert(l[j] != l.last());
        }
        lemma_sum_seq_congruent(f, g, l.drop_last());
    }
}

/// If `f` agrees with `g` on every entry of the duplicate-free list except
/// the single occurrence of `v`, where it is smaller by `d`, the list sums
/// differ by exactly `d`.
pub proof fn lemma_sum_seq_minus_at(
    f: spec_fn(int) -> int,
    g: spec_fn(int) -> int,
    l: Seq<u32>,
    v: u32,
    d: int,
)
    requires
        distinct_sites(l),
        l.contains(v),
        f(v as int) == g(v as int) - d,
        forall|j: int| 0 <= j < l.len() && l[j] != v ==> f(#[trigger] l[j] as int) == g(l[j] as int),
    ensures
        sum_over_seq(f, l) == sum_over_seq(g, l) - d,
    decreases l.len(),
{
    if l.last() == v {
        assert forall|j: int| 0 <= j < l.drop_last().len() implies f(
            #[trigger] l.drop_last()[j] as int,
        ) == g(l.drop_last()[j] as int) by {
            assert(l.drop_last()[j] == l[j]);
            assert(l[j] != l.last());
        }
        lemma_sum_seq_congruent(f, g, l.drop_last());
    } else {
        let j = choose|j: int| 0 <= j < l.len() && l[j] == v;
        assert(j < l.len() - 1);
        assert(l.drop_last()[j] == v);
        assert(l.drop_last().contains(v));
        assert forall|i: int|
            0 <= i < l.drop_last().len() && l.drop_last()[i] != v implies f(
            #[trigger] l.drop_last()[i] as int,
        ) == g(l.drop_last()[i] as int) by {
            assert(l.drop_last()[i] == l[i]);
        }
        lemma_sum_seq_minus_at(f, g, l.drop_last(), v, d);
    }
}

} // verus!
