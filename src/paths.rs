//! Paths of open doors, and the standing laws of a well-formed maze.
use vstd::prelude::*;

use crate::grid::Coord;
use crate::maze::{DoorState, Maze};
use crate::Direction;

verus! {

impl Maze {
    /// From `a` one can step to `b` through an open door.
    pub open spec fn open_step(self, a: Coord, b: Coord) -> bool {
        exists|d: Direction|
            self.grid.spec_neighbor(a, d) == Some(b) && #[trigger] self.door(a, d) == Some(
                DoorState::Open,
            )
    }

    /// `p` is a walk of one or more rooms, each step through an open door.
    pub open spec fn is_open_path(self, p: Seq<Coord>) -> bool {
        &&& p.len() > 0
        &&& forall|i: int| 0 <= i < p.len() - 1 ==> #[trigger] self.open_step(p[i], p[i + 1])
    }

    /// Some walk through open doors leads from `a` to `b`.
    pub open spec fn reachable(self, a: Coord, b: Coord) -> bool {
        exists|p: Seq<Coord>| #[trigger] self.is_open_path(p) && p[0] == a && p.last() == b
    }
}

/// A walk through open doors stays one after more doors open.
pub proof fn lemma_open_path_kept(m: Maze, later: Maze, p: Seq<Coord>)
    requires
        m.is_open_path(p),
        m.keeps_open(later),
    ensures
        later.is_open_path(p),
{
    assert forall|i: int| 0 <= i < p.len() - 1 implies #[trigger] later.open_step(p[i], p[i + 1]) by {
        assert(m.open_step(p[i], p[i + 1]));
        let d = choose|d: Direction|
            m.grid.spec_neighbor(p[i], d) == Some(p[i + 1]) && #[trigger] m.door(p[i], d) == Some(
                DoorState::Open,
            );
        assert(later.door(p[i], d) == Some(DoorState::Open));
    }
}

/// A walk through open doors extends through one more open door.
pub proof fn lemma_open_path_push(m: Maze, p: Seq<Coord>, d: Direction, b: Coord)
    requires
        m.is_open_path(p),
        m.grid.spec_neighbor(p.last(), d) == Some(b),
        m.door(p.last(), d) == Some(DoorState::Open),
    ensures
        m.is_open_path(p.push(b)),
        p.push(b)[0] == p[0],
        p.push(b).last() == b,
{
    let q = p.push(b);
    assert forall|i: int| 0 <= i < q.len() - 1 implies #[trigger] m.open_step(q[i], q[i + 1]) by {
        if i < p.len() - 1 {
            assert(q[i] == p[i] && q[i + 1] == p[i + 1]);
        } else {
            assert(q[i] == p.last());
            assert(m.door(q[i], d) == Some(DoorState::Open));
        }
    }
}

/// Reachability survives the opening of more doors.
pub proof fn lemma_reachable_kept(m: Maze, later: Maze, a: Coord, b: Coord)
    requires
        m.reachable(a, b),
        m.keeps_open(later),
    ensures
        later.reachable(a, b),
{
    let p = choose|p: Seq<Coord>| #[trigger] m.is_open_path(p) && p[0] == a && p.last() == b;
    lemma_open_path_kept(m, later, p);
}

/// Walking an open path: from room `p[k]` there is a direction whose door is
/// open and leads to `p[k + 1]`, so the move that way succeeds and lands
/// there (see `Maze::move_toward`). A walk from the player's room to the
/// goal thus ends with the player in the goal room, which is when
/// `Maze::is_done` holds.
pub proof fn lemma_open_path_step(m: Maze, p: Seq<Coord>, k: int) -> (d: Direction)
    requires
        m.is_open_path(p),
        0 <= k < p.len() - 1,
    ensures
        m.door(p[k], d) == Some(DoorState::Open),
        m.grid.spec_neighbor(p[k], d) == Some(p[k + 1]),
{
    assert(m.open_step(p[k], p[k + 1]));
    choose|d: Direction|
        m.grid.spec_neighbor(p[k], d) == Some(p[k + 1]) && #[trigger] m.door(p[k], d) == Some(
            DoorState::Open,
        )
}

/// Door symmetry: in a well-formed maze, the door of room `c` facing `d`
/// and the door of its neighbour facing back hold the same state.
pub proof fn lemma_door_symmetry(m: Maze, c: Coord, d: Direction)
    requires
        m.wf(),
        m.grid.spec_contains(c),
        m.grid.spec_neighbor(c, d) is Some,
    ensures
        m.door(m.grid.spec_neighbor(c, d).unwrap(), d.spec_opposite()) == m.door(c, d),
{
}

/// Boundary: in a well-formed maze, a room has no door slot facing `d`
/// exactly when it has no neighbour that way.
pub proof fn lemma_door_absent_iff_edge(m: Maze, c: Coord, d: Direction)
    requires
        m.wf(),
        m.grid.spec_contains(c),
    ensures
        m.door(c, d) is None <==> m.grid.spec_neighbor(c, d) is None,
{
}

/// Doors only ever open: every slot of `later` is the slot of `m`, or an open door where
/// `m` had a door.
pub open spec fn only_opens(m: Maze, later: Maze) -> bool {
    &&& m.same_frame(later)
    &&& forall|c: Coord, d: Direction|
        m.grid.spec_contains(c) ==> (#[trigger] later.door(c, d) == m.door(c, d) || (m.door(
            c,
            d,
        ) is Some && later.door(c, d) == Some(DoorState::Open)))
}

pub proof fn lemma_only_opens_refl(m: Maze)
    ensures
        only_opens(m, m),
{
}

pub proof fn lemma_only_opens_trans(a: Maze, b: Maze, c: Maze)
    requires
        only_opens(a, b),
        only_opens(b, c),
    ensures
        only_opens(a, c),
{
    assert forall|x: Coord, d: Direction| a.grid.spec_contains(x) implies (#[trigger] c.door(x, d)
        == a.door(x, d) || (a.door(x, d) is Some && c.door(x, d) == Some(DoorState::Open))) by {
        assert(b.door(x, d) == a.door(x, d) || (a.door(x, d) is Some && b.door(x, d) == Some(
            DoorState::Open,
        )));
    }
}

pub proof fn lemma_only_opens_keeps_open(a: Maze, b: Maze)
    requires
        only_opens(a, b),
    ensures
        a.keeps_open(b),
{
    assert forall|c: Coord, d: Direction|
        a.grid.spec_contains(c) && a.door(c, d) == Some(DoorState::Open) implies #[trigger] b.door(
            c,
            d,
        ) == Some(DoorState::Open) by {
        assert(b.door(c, d) == a.door(c, d) || (a.door(c, d) is Some && b.door(c, d) == Some(
            DoorState::Open,
        )));
    }
}

/// Opening a door, on both of its sides, only opens.
pub proof fn lemma_open_door_only_opens(m: Maze, later: Maze, ix: Coord, d: Direction)
    requires
        m.same_frame(later),
        forall|c: Coord, e: Direction|
            m.grid.spec_contains(c) ==> #[trigger] later.door(c, e) == m.door_after(
                ix,
                d,
                DoorState::Open,
                c,
                e,
            ),
    ensures
        only_opens(m, later),
{
    assert forall|c: Coord, e: Direction| m.grid.spec_contains(c) implies (#[trigger] later.door(
        c,
        e,
    ) == m.door(c, e) || (m.door(c, e) is Some && later.door(c, e) == Some(DoorState::Open))) by {
        assert(later.door(c, e) == m.door_after(ix, d, DoorState::Open, c, e));
    }
}

/// A room with an open door keeps one while doors only open.
pub proof fn lemma_only_opens_any_open(a: Maze, b: Maze, c: Coord)
    requires
        only_opens(a, b),
        a.grid.spec_contains(c),
        a.doors_at(c).spec_any_open(),
    ensures
        b.doors_at(c).spec_any_open(),
{
    let d = choose|d: Direction| #[trigger] a.doors_at(c).slot(d) == Some(DoorState::Open);
    assert(a.door(c, d) == Some(DoorState::Open));
    assert(b.door(c, d) == Some(DoorState::Open));
}

/// While doors only open, a room keeps exactly the door slots it had.
pub proof fn lemma_only_opens_present(a: Maze, b: Maze, c: Coord, d: Direction)
    requires
        only_opens(a, b),
        a.grid.spec_contains(c),
    ensures
        b.door(c, d) is Some <==> a.door(c, d) is Some,
{
    assert(b.door(c, d) == a.door(c, d) || (a.door(c, d) is Some && b.door(c, d) == Some(
        DoorState::Open,
    )));
}

} // verus!
