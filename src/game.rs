//! One game on a maze: the player's moves, the rooms seen, and when it ends.
use vstd::prelude::*;

use crate::grid::Coord;
use crate::maze::{DoorState, Maze};
use crate::menu::Outcome;
use crate::seen::SeenSet;
use crate::Direction;

verus! {

/// An input, as the game reads it.
#[derive(Clone, Copy, Debug, PartialEq, Eq, Structural)]
pub enum MazeEvent {
    MoveN,
    MoveS,
    MoveE,
    MoveW,
    Enter,
    Quit,
    /// A key that means nothing here.
    OtherKey,
    /// Anything else the terminal reports.
    Other,
}

/// The direction that a move event asks for.
pub open spec fn event_direction(ev: MazeEvent) -> Option<Direction> {
    match ev {
        MazeEvent::MoveN => Some(Direction::North),
        MazeEvent::MoveS => Some(Direction::South),
        MazeEvent::MoveE => Some(Direction::East),
        MazeEvent::MoveW => Some(Direction::West),
        _ => None,
    }
}

/// Where the player stands after trying to go `d`: behind the door if it is
/// open, else where they were.
pub open spec fn position_after(m: Maze, d: Direction) -> Coord {
    if m.door(m.current_ix, d) == Some(DoorState::Open) {
        m.grid.spec_neighbor(m.current_ix, d).unwrap()
    } else {
        m.current_ix
    }
}

/// A maze being played, and the rooms the player has seen in it.
pub struct GameState {
    pub maze: Maze,
    pub seen: SeenSet,
}

impl GameState {
    pub open spec fn wf(self) -> bool {
        &&& self.maze.wf()
        &&& self.seen@.contains(self.maze.current_ix)
    }

    /// A game on `maze`, with the player's room seen.
    pub fn new(maze: Maze) -> (r: GameState)
        requires
            maze.wf(),
        ensures
            r.wf(),
            r.maze == maze,
            r.seen@ == set![maze.current_ix],
    {
        let mut seen = SeenSet::new();
        seen.mark_seen(maze.current_ix);
        proof {
            assert(seen@ =~= set![maze.current_ix]);
        }
        GameState { maze, seen }
    }

    /// Whether the player has reached the goal.
    pub fn is_done(&self) -> (r: bool)
        ensures
            r == (self.maze.current_ix == self.maze.goal),
    {
        self.maze.is_done()
    }

    pub fn is_seen(&self, c: Coord) -> (r: bool)
        ensures
            r == self.seen@.contains(c),
    {
        self.seen.is_seen(c)
    }

    /// Applies one input. A move goes through the door if it is open, and
    /// the room the player then stands in is seen. Quitting ends the game
    /// with `Outcome::Quit`; every other input changes nothing.
    pub fn handle(&mut self, ev: MazeEvent) -> (r: Option<Outcome>)
        requires
            old(self).wf(),
        ensures
            final(self).wf(),
            final(self).maze.grid == old(self).maze.grid,
            final(self).maze.rooms == old(self).maze.rooms,
            final(self).maze.goal == old(self).maze.goal,
            r == (if ev == MazeEvent::Quit {
                Some(Outcome::Quit)
            } else {
                None::<Outcome>
            }),
            event_direction(ev) matches Some(d) ==> {
                &&& final(self).maze.current_ix == position_after(old(self).maze, d)
                &&& final(self).seen@ == old(self).seen@.insert(final(self).maze.current_ix)
            },
            event_direction(ev) is None ==> final(self).maze.current_ix == old(self).maze.current_ix
                && final(self).seen@ == old(self).seen@,
    {
        let dir = match ev {
            MazeEvent::MoveN => Direction::North,
            MazeEvent::MoveS => Direction::South,
            MazeEvent::MoveE => Direction::East,
            MazeEvent::MoveW => Direction::West,
            MazeEvent::Quit => {
                return Some(Outcome::Quit);
            },
            _ => {
                return None;
            },
        };
        self.maze.move_toward(dir);
        self.seen.mark_seen(self.maze.current_ix);
        None
    }
}

} // verus!
