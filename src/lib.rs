//! A grid maze: rooms joined by doors that open in pairs, a player that moves
//! through open doors toward a goal, two random door generators, and the
//! record of seen rooms that fog-of-war views read.
use vstd::prelude::*;

pub mod game;
pub mod grid;
pub mod maze;
pub mod menu;
pub mod movement;
pub mod paths;
pub mod random;
pub mod seeders;
pub mod seen;

verus! {

/// One of the four compass directions of a room's doors.
#[derive(Clone, Copy, Debug, PartialEq, Eq, Structural)]
pub enum Direction {
    North,
    South,
    East,
    West,
}

impl Direction {
    /// The direction that points back.
    pub open spec fn spec_opposite(self) -> Direction {
        match self {
            Direction::North => Direction::South,
            Direction::South => Direction::North,
            Direction::East => Direction::West,
            Direction::West => Direction::East,
        }
    }

    pub fn opposite(self) -> (r: Direction)
        ensures
            r == self.spec_opposite(),
    {
        match self {
            Direction::North => Direction::South,
            Direction::South => Direction::North,
            Direction::East => Direction::West,
            Direction::West => Direction::East,
        }
    }

    /// An iterator over all four directions, clockwise from north.
    pub fn into_iter(self) -> (r: DirectionsIter)
        ensures
            r.curr.is_none(),
    {
        DirectionsIter::new()
    }
}

/// The direction that follows `d` clockwise, or `None` after west.
pub open spec fn next_clockwise(d: Option<Direction>) -> Option<Direction> {
    match d {
        None => Some(Direction::North),
        Some(Direction::North) => Some(Direction::East),
        Some(Direction::East) => Some(Direction::South),
        Some(Direction::South) => Some(Direction::West),
        Some(Direction::West) => None,
    }
}

/// Walks the four directions in the order north, east, south, west.
pub struct DirectionsIter {
    pub curr: Option<Direction>,
}

impl DirectionsIter {
    pub fn new() -> (r: Self)
        ensures
            r.curr.is_none(),
    {
        Self { curr: None }
    }

    /// The next direction clockwise; `None` once west has been handed out.
    pub fn next(&mut self) -> (r: Option<Direction>)
        ensures
            r == next_clockwise(old(self).curr),
            final(self).curr == r,
    {
        let dir = match self.curr {
            None => Some(Direction::North),
            Some(Direction::North) => Some(Direction::East),
            Some(Direction::East) => Some(Direction::South),
            Some(Direction::South) => Some(Direction::West),
            Some(Direction::West) => None,
        };
        self.curr = dir;
        dir
    }
}

/// `seq![d]` if `b` holds, else nothing.
pub open spec fn keep_if(b: bool, d: Direction) -> Seq<Direction> {
    if b {
        seq![d]
    } else {
        Seq::empty()
    }
}

/// The directions whose flag is set, clockwise from north.
pub open spec fn directions_flagged(n: bool, e: bool, s: bool, w: bool) -> Seq<Direction> {
    keep_if(n, Direction::North) + keep_if(e, Direction::East) + keep_if(s, Direction::South)
        + keep_if(w, Direction::West)
}

pub open spec fn flag_of(n: bool, e: bool, s: bool, w: bool, d: Direction) -> bool {
    match d {
        Direction::North => n,
        Direction::East => e,
        Direction::South => s,
        Direction::West => w,
    }
}

/// The directions whose flag is set, clockwise from north.
pub fn directions_where(n: bool, e: bool, s: bool, w: bool) -> (r: Vec<Direction>)
    ensures
        r@ == directions_flagged(n, e, s, w),
        forall|d: Direction| #[trigger] r@.contains(d) <==> flag_of(n, e, s, w, d),
{
    let mut r: Vec<Direction> = Vec::new();
    if n {
        r.push(Direction::North);
    }
    if e {
        r.push(Direction::East);
    }
    if s {
        r.push(Direction::South);
    }
    if w {
        r.push(Direction::West);
    }
    proof {
        assert(r@ =~= directions_flagged(n, e, s, w));
        assert forall|d: Direction| #[trigger] r@.contains(d) <==> flag_of(n, e, s, w, d) by {
            if flag_of(n, e, s, w, d) {
                let i: int = if d == Direction::North {
                    0
                } else if d == Direction::East {
                    (if n { 1int } else { 0int })
                } else if d == Direction::South {
                    (if n { 1int } else { 0int }) + (if e { 1int } else { 0int })
                } else {
                    (if n { 1int } else { 0int }) + (if e { 1int } else { 0int }) + (if s { 1int } else { 0int })
                };
                assert(r@[i] == d);
            }
        }
    }
    r
}

} // verus!
