//! The dynamic collection of currently legal moves.
//!
//! A dense vector of moves plus an index from the packed `(from, to)` key to
//! the move's position in the vector give O(1) insertion and removal while
//! keeping uniform random sampling a plain pick over the dense vector.

use vstd::prelude::*;

verus! {

broadcast use vstd::std_specs::hash::group_hash_axioms;

/// One side of a move key never reaches this bound, so packing two `u32`
/// coordinates as `from + to * KEY_BASE` is injective.
pub const KEY_BASE: u64 = 0x1_0000_0000;

pub open spec fn spec_move_key(move_from: u32, move_to: u32) -> u64 {
    (move_from as u64 + move_to as u64 * KEY_BASE) as u64
}

proof fn lemma_move_key_injective(f1: u32, t1: u32, f2: u32, t2: u32)
    requires
        spec_move_key(f1, t1) == spec_move_key(f2, t2),
    ensures
        f1 == f2 && t1 == t2,
{
    assert(f1 as u64 + t1 as u64 * 0x1_0000_0000u64 == f2 as u64 + t2 as u64 * 0x1_0000_0000u64
        ==> f1 == f2 && t1 == t2) by (nonlinear_arith)
        requires
            f1 < 0x1_0000_0000u64 && f2 < 0x1_0000_0000u64,
    ;
}

#[verifier::external_type_specification]
#[verifier::external_body]
pub struct ExSmallRng(rand::rngs::SmallRng);

/// Relies on rand's `Rng::gen_range` over `0..len`: it returns a uniformly
/// drawn value of the range, so an index strictly below `len`, and panics
/// only on an empty range, which the precondition rules out.
#[verifier::external_body]
fn rand_index_below(rng_choose: &mut rand::rngs::SmallRng, len: usize) -> (r: usize)
    requires
        len > 0,
    ensures
        r < len,
{
    rand::Rng::gen_range(rng_choose, 0..len)
}

/// The move collection: `moves` is dense so that sampling an index uniformly
/// samples a move uniformly, and `move_to_position` maps each packed key to
/// the position of its move in `moves`.
#[derive(Clone)]
pub struct ListDict {
    pub move_to_position: std::collections::HashMap<u64, usize>,
    pub moves: Vec<(u32, u32, Option<i64>)>,
}

impl ListDict {
    /// The abstract contents: the set of `(from, to)` pairs currently present.
    pub open spec fn view(&self) -> Set<(u32, u32)> {
        Set::new(
            |p: (u32, u32)|
                exists|i: int|
                    0 <= i < self.moves@.len() && (#[trigger] self.moves@[i]).0 == p.0
                        && self.moves@[i].1 == p.1,
        )
    }

    /// The index is exactly the inverse of the dense vector.
    pub closed spec fn inv(&self) -> bool {
        &&& forall|i: int|
            0 <= i < self.moves@.len() ==> {
                let e = #[trigger] self.moves@[i];
                self.move_to_position@.contains_key(spec_move_key(e.0, e.1))
                    && self.move_to_position@[spec_move_key(e.0, e.1)] == i
            }
        &&& forall|k: u64|
            self.move_to_position@.contains_key(k) ==> {
                let i = #[trigger] self.move_to_position@[k];
                0 <= i < self.moves@.len() && spec_move_key(self.moves@[i as int].0, self.moves@[i as int].1)
                    == k
            }
    }

    pub fn new(nsites: u32) -> (r: ListDict)
        ensures
            r.inv(),
            r@ == Set::<(u32, u32)>::empty(),
            r.moves@.len() == 0,
    {
        let r = ListDict {
            move_to_position: std::collections::HashMap::new(),
            moves: Vec::new(),
        };
        proof {
            assert(r@ =~= Set::<(u32, u32)>::empty());
        }
        r
    }

    /// Number of moves currently in the collection.
    pub fn _len(&self) -> (r: usize)
        ensures
            r == self.moves@.len(),
    {
        self.moves.len()
    }

    /// Inserts the move if it is absent; a present move is left exactly as it
    /// is, so insertion is idempotent.
    pub fn add_item(&mut self, move_from: u32, move_to: u32, energy_change: Option<i64>)
        requires
            old(self).inv(),
        ensures
            final(self).inv(),
            final(self)@ == old(self)@.insert((move_from, move_to)),
            old(self)@.contains((move_from, move_to)) ==> final(self).moves@ == old(self).moves@,
            !old(self)@.contains((move_from, move_to)) ==> final(self).moves@ == old(self).moves@.push(
                (move_from, move_to, energy_change),
            ),
    {
        let key = move_from as u64 + (move_to as u64) * KEY_BASE;
        if !self.move_to_position.contains_key(&key) {
            proof {
                assert forall|i: int| 0 <= i < self.moves@.len() implies !((#[trigger] self.moves@[i]).0
                    == move_from && self.moves@[i].1 == move_to) by {
                    if self.moves@[i].0 == move_from && self.moves@[i].1 == move_to {
                        assert(self.move_to_position@.contains_key(spec_move_key(move_from, move_to)));
                    }
                }
            }
            self.moves.push((move_from, move_to, energy_change));
            let pos = self.moves.len() - 1;
            self.move_to_position.insert(key, pos);
            proof {
                let old_moves = old(self).moves@;
                assert forall|i: int| 0 <= i < self.moves@.len() implies {
                    let e = #[trigger] self.moves@[i];
                    self.move_to_position@.contains_key(spec_move_key(e.0, e.1))
                        && self.move_to_position@[spec_move_key(e.0, e.1)] == i
                } by {
                    let e = self.moves@[i];
                    if i < old_moves.len() {
                        if spec_move_key(e.0, e.1) == spec_move_key(move_from, move_to) {
                            lemma_move_key_injective(e.0, e.1, move_from, move_to);
                        }
                    }
                }
                let n = self.moves@.len() as int;
                assert forall|p: (u32, u32)| old(self)@.insert((move_from, move_to)).contains(p)
                    implies self@.contains(p) by {
                    if p == (move_from, move_to) {
                        assert((#[trigger] self.moves@[n - 1]).0 == p.0 && self.moves@[n - 1].1
                            == p.1);
                    } else {
                        let i = choose|i: int|
                            0 <= i < old_moves.len() && (#[trigger] old_moves[i]).0 == p.0
                                && old_moves[i].1 == p.1;
                        assert((#[trigger] self.moves@[i]).0 == p.0 && self.moves@[i].1 == p.1);
                    }
                }
                assert forall|p: (u32, u32)| self@.contains(p) implies old(self)@.insert(
                    (move_from, move_to),
                ).contains(p) by {
                    let i = choose|i: int|
                        0 <= i < self.moves@.len() && (#[trigger] self.moves@[i]).0 == p.0
                            && self.moves@[i].1 == p.1;
                    if i < n - 1 {
                        assert((#[trigger] old_moves[i]).0 == p.0 && old_moves[i].1 == p.1);
                    }
                }
                assert(self@ =~= old(self)@.insert((move_from, move_to)));
            }
        } else {
            proof {
                let k = spec_move_key(move_from, move_to);
                let i = self.move_to_position@[k];
                lemma_move_key_injective(
                    self.moves@[i as int].0,
                    self.moves@[i as int].1,
                    move_from,
                    move_to,
                );
                assert(old(self)@.contains((move_from, move_to)));
                assert(self@ =~= old(self)@.insert((move_from, move_to)));
            }
        }
    }

    /// Removes the move if it is present, swapping the last move into its
    /// slot; an absent move leaves the collection exactly as it is.
    pub fn remove_item(&mut self, move_from: u32, move_to: u32)
        requires
            old(self).inv(),
        ensures
            final(self).inv(),
            final(self)@ == old(self)@.remove((move_from, move_to)),
            !old(self)@.contains((move_from, move_to)) ==> final(self).moves@ == old(self).moves@,
            old(self)@.contains((move_from, move_to)) ==> final(self).moves@.len() == old(
                self,
            ).moves@.len() - 1,
            old(self)@.contains((move_from, move_to)) ==> final(self).moves@ == old(
                self,
            ).moves@.update(
                old(self).move_to_position@[spec_move_key(move_from, move_to)] as int,
                old(self).moves@.last(),
            ).drop_last(),
            forall|p: (u32, u32)|
                final(self)@.contains(p) ==> #[trigger] old(self)@.contains(p),
    {
        let key = move_from as u64 + (move_to as u64) * KEY_BASE;
        let removed = self.move_to_position.remove(&key);
        match removed {
            Some(position) => {
                proof {
                    let e = old(self).moves@[position as int];
                    lemma_move_key_injective(e.0, e.1, move_from, move_to);
                }
                let last = self.moves.pop().unwrap();
                if position != self.moves.len() {
                    self.moves[position] = last;
                    let last_key = last.0 as u64 + (last.1 as u64) * KEY_BASE;
                    self.move_to_position.insert(last_key, position);
                }
                proof {
                    let oldm = old(self).moves@;
                    let n = oldm.len() as int;
                    assert forall|i: int| 0 <= i < self.moves@.len() implies {
                        let e = #[trigger] self.moves@[i];
                        self.move_to_position@.contains_key(spec_move_key(e.0, e.1))
                            && self.move_to_position@[spec_move_key(e.0, e.1)] == i
                    } by {
                        let e = self.moves@[i];
                        if spec_move_key(e.0, e.1) == spec_move_key(move_from, move_to) {
                            lemma_move_key_injective(e.0, e.1, move_from, move_to);
                            assert(i == position);
                            if position != n - 1 {
                                let l = oldm[n - 1];
                                lemma_move_key_injective(l.0, l.1, move_from, move_to);
                            }
                            assert(false);
                        }
                    }
                    assert forall|p: (u32, u32)| old(self)@.remove((move_from, move_to)).contains(p)
                        implies self@.contains(p) by {
                        let i = choose|i: int|
                            0 <= i < oldm.len() && (#[trigger] oldm[i]).0 == p.0 && oldm[i].1 == p.1;
                        if i == position {
                            lemma_move_key_injective(oldm[i].0, oldm[i].1, move_from, move_to);
                        } else if i == n - 1 {
                            if position != n - 1 {
                                assert(self.moves@[position as int] == oldm[n - 1]);
                            }
                        } else {
                            assert(self.moves@[i] == oldm[i]);
                        }
                    }
                    assert forall|p: (u32, u32)| self@.contains(p) implies old(self)@.remove(
                        (move_from, move_to),
                    ).contains(p) by {
                        let i = choose|i: int|
                            0 <= i < self.moves@.len() && (#[trigger] self.moves@[i]).0 == p.0
                                && self.moves@[i].1 == p.1;
                        if i == position && position != n - 1 {
                            assert(self.moves@[i] == oldm[n - 1]);
                        } else {
                            assert(self.moves@[i] == oldm[i]);
                        }
                        if p == (move_from, move_to) {
                            let j = choose|j: int|
                                0 <= j < oldm.len() && (#[trigger] oldm[j]).0 == p.0 && oldm[j].1
                                    == p.1;
                            assert(spec_move_key(oldm[j].0, oldm[j].1) == spec_move_key(
                                move_from,
                                move_to,
                            ));
                            assert(false);
                        }
                    }
                    assert(self@ =~= old(self)@.remove((move_from, move_to)));
                }
            }
            None => {
                proof {
                    assert forall|p: (u32, u32)| old(self)@.contains(p) implies p != (
                        move_from,
                        move_to,
                    ) by {
                        if p == (move_from, move_to) {
                            let i = choose|i: int|
                                0 <= i < old(self).moves@.len() && (#[trigger] old(
                                    self,
                                ).moves@[i]).0 == p.0 && old(self).moves@[i].1 == p.1;
                            assert(old(self).move_to_position@.contains_key(
                                spec_move_key(move_from, move_to),
                            ));
                        }
                    }
                    assert(self@ =~= old(self)@.remove((move_from, move_to)));
                }
            }
        }
    }

    /// Picks one move uniformly at random; the collection must be non-empty
    /// (an immobilized particle is a fatal condition the caller checks first).
    pub fn choose_random_item_mc(&self, rng_choose: &mut rand::rngs::SmallRng) -> (r: (
        u32,
        u32,
        Option<i64>,
    ))
        requires
            self.moves@.len() > 0,
        ensures
            self.moves@.contains(r),
            self@.contains((r.0, r.1)),
    {
        let i = rand_index_below(rng_choose, self.moves.len());
        let r = self.moves[i];
        proof {
            assert(self.moves@[i as int] == r);
            assert((#[trigger] self.moves@[i as int]).0 == r.0 && self.moves@[i as int].1 == r.1);
        }
        r
    }

    /// Whether the move `(move_from, move_to)` is currently in the collection.
    pub fn contains_move(&self, move_from: u32, move_to: u32) -> (r: bool)
        requires
            self.inv(),
        ensures
            r == self@.contains((move_from, move_to)),
    {
        let key = move_from as u64 + (move_to as u64) * KEY_BASE;
        let r = self.move_to_position.contains_key(&key);
        proof {
            if r {
                let i = self.move_to_position@[spec_move_key(move_from, move_to)];
                let e = self.moves@[i as int];
                lemma_move_key_injective(e.0, e.1, move_from, move_to);
            } else {
                if self@.contains((move_from, move_to)) {
                    let i = choose|i: int|
                        0 <= i < self.moves@.len() && (#[trigger] self.moves@[i]).0 == move_from
                            && self.moves@[i].1 == move_to;
                    assert(self.move_to_position@.contains_key(spec_move_key(move_from, move_to)));
                }
            }
        }
        r
    }
}

} // verus!
