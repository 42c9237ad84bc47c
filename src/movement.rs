//! Moves that the game makes on the player's behalf.
use vstd::prelude::*;

use rand::rngs::StdRng;

use crate::maze::Maze;
use crate::random::draw_u8;
use crate::seeders::ATTEMPT_LIMIT;
use crate::Direction;

verus! {

/// The direction that a draw of `v` stands for: its remainder by four picks
/// north, south, east or west.
pub open spec fn direction_of_draw(v: u8) -> Direction {
    let k = v % 4;
    if k == 0 {
        Direction::North
    } else if k == 1 {
        Direction::South
    } else if k == 2 {
        Direction::East
    } else {
        Direction::West
    }
}

pub fn direction_for_draw(v: u8) -> (r: Direction)
    ensures
        r == direction_of_draw(v),
{
    let k = v % 4;
    if k == 0 {
        Direction::North
    } else if k == 1 {
        Direction::South
    } else if k == 2 {
        Direction::East
    } else {
        Direction::West
    }
}

/// Moves the player through a door picked at random, drawing again while
/// the picked door is not open. A room without an open door is left as it is.
/// Should the draws miss an open door `ATTEMPT_LIMIT` times, the player takes
/// the first open door of north, south, east and west.
pub fn random_step(maze: &mut Maze, rng: &mut StdRng)
    requires
        old(maze).wf(),
    ensures
        final(maze).wf(),
        final(maze).grid == old(maze).grid,
        final(maze).rooms == old(maze).rooms,
        final(maze).goal == old(maze).goal,
        final(maze).current_ix == old(maze).current_ix || old(maze).open_step(
            old(maze).current_ix,
            final(maze).current_ix,
        ),
        !old(maze).doors_at(old(maze).current_ix).spec_any_open() ==> final(maze).current_ix
            == old(maze).current_ix,
        old(maze).doors_at(old(maze).current_ix).spec_any_open() ==> old(maze).open_step(
            old(maze).current_ix,
            final(maze).current_ix,
        ),
{
    let ghost orig = *maze;
    let here = maze.current_ix;
    if !maze.doors(here).any_open() {
        return;
    }
    let mut tries: u64 = 0;
    let mut moved = false;
    while !moved && tries < ATTEMPT_LIMIT
        invariant
            maze.wf(),
            maze.grid == orig.grid,
            maze.rooms == orig.rooms,
            maze.goal == orig.goal,
            here == orig.current_ix,
            orig.doors_at(here).spec_any_open(),
            !moved ==> maze.current_ix == here,
            moved ==> orig.open_step(here, maze.current_ix),
        decreases ATTEMPT_LIMIT - tries,
    {
        let v = draw_u8(rng);
        let d = direction_for_draw(v);
        moved = maze.move_toward(d);
        proof {
            if moved {
                assert(orig.grid.spec_neighbor(here, d) == Some(maze.current_ix) && orig.door(here, d)
                    == Some(crate::maze::DoorState::Open));
            }
        }
        tries = tries + 1;
    }
    if !moved {
        moved = maze.move_toward(Direction::North);
    }
    if !moved {
        moved = maze.move_toward(Direction::South);
    }
    if !moved {
        moved = maze.move_toward(Direction::East);
    }
    if !moved {
        moved = maze.move_toward(Direction::West);
    }
    proof {
        let d = choose|d: Direction| #[trigger] orig.doors_at(here).slot(d) == Some(
            crate::maze::DoorState::Open,
        );
        assert(orig.door(here, d) == Some(crate::maze::DoorState::Open));
        assert(moved);
        assert(orig.open_step(here, maze.current_ix));
    }
}

} // verus!
