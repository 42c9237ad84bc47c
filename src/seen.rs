//! The rooms the player has seen, which fog-of-war views consult.
use vstd::prelude::*;

use std::collections::BTreeSet;

use crate::grid::{Coord, Grid};
use crate::{directions_flagged, directions_where, flag_of, Direction};

verus! {

broadcast use vstd::std_specs::btree::group_btree_axioms, vstd::laws_cmp::group_laws_cmp;

/// The set of seen rooms. It only grows while one maze is played.
pub struct SeenSet {
    seen: BTreeSet<(usize, usize)>,
}

impl View for SeenSet {
    type V = Set<Coord>;

    closed spec fn view(&self) -> Set<Coord> {
        Set::new(|c: Coord| self.seen@.contains((c.row, c.col)))
    }
}

/// From an unseen room, the wall toward `d` is drawn opaque: there is no
/// room that way, or that room has not been seen either.
pub open spec fn opaque_toward(g: Grid, seen: Set<Coord>, c: Coord, d: Direction) -> bool {
    match g.spec_neighbor(c, d) {
        Some(n) => !seen.contains(n),
        None => true,
    }
}

impl SeenSet {
    pub fn new() -> (r: SeenSet)
        ensures
            r@ == Set::<Coord>::empty(),
    {
        let r = SeenSet { seen: BTreeSet::new() };
        proof {
            assert(r@ =~= Set::<Coord>::empty());
        }
        r
    }

    /// Records `c` as seen; marking a room twice changes nothing.
    pub fn mark_seen(&mut self, c: Coord)
        ensures
            final(self)@ == old(self)@.insert(c),
    {
        self.seen.insert((c.row, c.col));
        proof {
            assert(final(self)@ =~= old(self)@.insert(c));
        }
    }

    pub fn is_seen(&self, c: Coord) -> (r: bool)
        ensures
            r == self@.contains(c),
    {
        self.seen.contains(&(c.row, c.col))
    }

    /// For a room `c` that has not been seen, the directions whose wall is
    /// drawn as an opaque silhouette, clockwise from north.
    pub fn unseen_walls(&self, g: &Grid, c: Coord) -> (r: Vec<Direction>)
        ensures
            r@ == directions_flagged(
                opaque_toward(*g, self@, c, Direction::North),
                opaque_toward(*g, self@, c, Direction::East),
                opaque_toward(*g, self@, c, Direction::South),
                opaque_toward(*g, self@, c, Direction::West),
            ),
            forall|d: Direction| #[trigger] r@.contains(d) <==> opaque_toward(*g, self@, c, d),
    {
        let n = self.is_opaque_toward(g, c, Direction::North);
        let e = self.is_opaque_toward(g, c, Direction::East);
        let s = self.is_opaque_toward(g, c, Direction::South);
        let w = self.is_opaque_toward(g, c, Direction::West);
        let r = directions_where(n, e, s, w);
        proof {
            assert forall|d: Direction| #[trigger] r@.contains(d) <==> opaque_toward(
                *g,
                self@,
                c,
                d,
            ) by {
                assert(r@.contains(d) <==> flag_of(n, e, s, w, d));
                match d {
                    Direction::North => {},
                    Direction::East => {},
                    Direction::South => {},
                    Direction::West => {},
                }
            }
        }
        r
    }

    fn is_opaque_toward(&self, g: &Grid, c: Coord, d: Direction) -> (r: bool)
        ensures
            r == opaque_toward(*g, self@, c, d),
    {
        match g.neighbor(c, d) {
            Some(n) => !self.is_seen(n),
            None => true,
        }
    }
}

/// The seen set after marking each room of `cs` in turn, starting from `s`.
pub open spec fn marked_all(s: Set<Coord>, cs: Seq<Coord>) -> Set<Coord>
    decreases cs.len(),
{
    if cs.len() == 0 {
        s
    } else {
        marked_all(s, cs.drop_last()).insert(cs.last())
    }
}

/// Seen rooms accumulate: marking the rooms of `cs` one after another,
/// starting from nothing seen, leaves exactly the rooms of `cs` seen,
/// whatever their order and however often each occurs.
pub proof fn lemma_seen_accumulates(cs: Seq<Coord>)
    ensures
        marked_all(Set::empty(), cs) == cs.to_set(),
    decreases cs.len(),
{
    if cs.len() > 0 {
        lemma_seen_accumulates(cs.drop_last());
        assert(cs =~= cs.drop_last().push(cs.last()));
        assert(marked_all(Set::empty(), cs) =~= cs.to_set()) by {
            assert forall|c: Coord| #[trigger] cs.to_set().contains(c) <==> cs.drop_last().to_set().insert(cs.last()).contains(c) by {
                if cs.contains(c) {
                    let k = choose|k: int| 0 <= k < cs.len() && cs[k] == c;
                    if k < cs.len() - 1 {
                        assert(cs.drop_last()[k] == c);
                    }
                }
                if cs.drop_last().contains(c) {
                    let k = choose|k: int| 0 <= k < cs.drop_last().len() && cs.drop_last()[k] == c;
                    assert(cs[k] == c);
                }
                if c == cs.last() {
                    assert(cs[cs.len() - 1] == c);
                }
            }
        }
    }
}

} // verus!
