//! Door generators: a naive per-room coin flipper, and a carver that walks
//! at random from the player's room until it reaches the goal.
use vstd::prelude::*;
use vstd::set_lib::lemma_len_subset;

use rand::rngs::StdRng;
use std::collections::BTreeSet;

use crate::grid::{lemma_index_in_range, lemma_index_injective, lemma_neighbor_back, Coord, Grid};
use crate::maze::{DoorState, Maze};
use crate::paths::{
    lemma_open_door_only_opens, lemma_open_path_kept, lemma_open_path_push,
    lemma_only_opens_any_open, lemma_only_opens_keeps_open, lemma_only_opens_present,
    lemma_only_opens_refl, lemma_only_opens_trans, lemma_reachable_kept, only_opens,
};
use crate::random::{choose_direction, flip_coin};
use crate::{directions_where, Direction};

verus! {

broadcast use vstd::std_specs::btree::group_btree_axioms, vstd::laws_cmp::group_laws_cmp;

/// How often a random draw is repeated before a generator settles for a
/// fixed choice. A run reaches it only if the draws fail that many times.
pub const ATTEMPT_LIMIT: u64 = u64::MAX;

/// Opens the door of `ix` facing `d` on both of its sides.
fn open_door(maze: &mut Maze, ix: Coord, d: Direction)
    requires
        old(maze).wf(),
    ensures
        final(maze).wf(),
        only_opens(*old(maze), *final(maze)),
        forall|c: Coord, e: Direction|
            old(maze).grid.spec_contains(c) ==> #[trigger] final(maze).door(c, e)
                == old(maze).door_after(ix, d, DoorState::Open, c, e),
{
    let ghost prev = *maze;
    maze.set_door(ix, d, DoorState::Open);
    proof {
        lemma_open_door_only_opens(prev, *maze, ix, d);
    }
}

/// Opens the door from the end `curr` of an open walk toward `d`, and
/// returns the room behind it; the walk now extends to that room.
fn open_and_step(maze: &mut Maze, curr: Coord, d: Direction, Ghost(path): Ghost<Seq<Coord>>) -> (next: Coord)
    requires
        old(maze).wf(),
        old(maze).grid.spec_neighbor(curr, d) is Some,
        old(maze).is_open_path(path),
        path.last() == curr,
    ensures
        final(maze).wf(),
        only_opens(*old(maze), *final(maze)),
        Some(next) == old(maze).grid.spec_neighbor(curr, d),
        final(maze).is_open_path(path.push(next)),
        path.push(next)[0] == path[0],
{
    let ghost prev = *maze;
    open_door(maze, curr, d);
    let next = maze.grid.neighbor(curr, d).unwrap();
    proof {
        assert(prev.door(curr, d) is Some);
        assert(maze.door(curr, d) == prev.door_after(curr, d, DoorState::Open, curr, d));
        lemma_only_opens_keeps_open(prev, *maze);
        lemma_open_path_kept(prev, *maze, path);
        lemma_open_path_push(*maze, path, d, next);
    }
    next
}

/// The set of the first `n` row-major indices.
spec fn indices_below(n: nat) -> Set<usize>
    decreases n,
{
    if n == 0 {
        Set::empty()
    } else {
        indices_below((n - 1) as nat).insert((n - 1) as usize)
    }
}

proof fn lemma_indices_below(n: nat)
    requires
        n <= usize::MAX,
    ensures
        indices_below(n).finite(),
        indices_below(n).len() == n,
        forall|x: usize| #[trigger] indices_below(n).contains(x) <==> (x as nat) < n,
    decreases n,
{
    if n > 0 {
        lemma_indices_below((n - 1) as nat);
        assert(!indices_below((n - 1) as nat).contains((n - 1) as usize));
    }
}

/// From `c`, direction `d` leads to a room that `visited` does not hold.
pub open spec fn unvisited_toward(g: Grid, visited: Set<usize>, c: Coord, d: Direction) -> bool {
    match g.spec_neighbor(c, d) {
        Some(n) => !visited.contains(g.index_of(n) as usize),
        None => false,
    }
}

fn is_unvisited_toward(g: &Grid, visited: &BTreeSet<usize>, c: Coord, d: Direction) -> (r: bool)
    requires
        g.wf(),
    ensures
        r == unvisited_toward(*g, visited@, c, d),
{
    match g.neighbor(c, d) {
        Some(n) => {
            let i = g.flat_index(n);
            !visited.contains(&i)
        },
        None => false,
    }
}

/// The directions from `c` toward rooms not yet visited, clockwise from north.
fn unvisited_directions(g: &Grid, visited: &BTreeSet<usize>, c: Coord) -> (r: Vec<Direction>)
    requires
        g.wf(),
    ensures
        forall|d: Direction| #[trigger] r@.contains(d) <==> unvisited_toward(*g, visited@, c, d),
{
    let n = is_unvisited_toward(g, visited, c, Direction::North);
    let e = is_unvisited_toward(g, visited, c, Direction::East);
    let s = is_unvisited_toward(g, visited, c, Direction::South);
    let w = is_unvisited_toward(g, visited, c, Direction::West);
    let r = directions_where(n, e, s, w);
    proof {
        assert forall|d: Direction| #[trigger] r@.contains(d) <==> unvisited_toward(
            *g,
            visited@,
            c,
            d,
        ) by {
            match d {
                Direction::North => {},
                Direction::East => {},
                Direction::South => {},
                Direction::West => {},
            }
        }
    }
    r
}

/// Adds every index of `trail` to `all`.
fn merge_trail(all: &mut BTreeSet<usize>, trail: &Vec<usize>)
    ensures
        forall|x: usize| #[trigger] final(all)@.contains(x) <==> old(all)@.contains(x) || trail@.contains(x),
{
    let mut t: usize = 0;
    while t < trail.len()
        invariant
            t <= trail@.len(),
            forall|x: usize|
                #[trigger] all@.contains(x) <==> old(all)@.contains(x) || trail@.subrange(
                    0,
                    t as int,
                ).contains(x),
        decreases trail@.len() - t,
    {
        let ghost before = all@;
        all.insert(trail[t]);
        proof {
            let s0 = trail@.subrange(0, t as int);
            let s1 = trail@.subrange(0, t as int + 1);
            assert(s1 =~= s0.push(trail@[t as int]));
            assert forall|x: usize| s1.contains(x) <==> s0.contains(x) || x == trail@[t as int] by {
                if s1.contains(x) {
                    let k = choose|k: int| 0 <= k < s1.len() && s1[k] == x;
                    if k < t {
                        assert(s0[k] == x);
                    }
                }
                if s0.contains(x) {
                    let k = choose|k: int| 0 <= k < s0.len() && s0[k] == x;
                    assert(s1[k] == x);
                }
                if x == trail@[t as int] {
                    assert(s1[t as int] == x);
                }
            }
        }
        t = t + 1;
    }
    proof {
        assert(trail@.subrange(0, trail@.len() as int) =~= trail@);
    }
}

/// Every room whose row-major index `listed` holds has an open door.
pub open spec fn listed_rooms_open(m: Maze, listed: Set<usize>) -> bool {
    forall|c: Coord|
        m.grid.spec_contains(c) && #[trigger] listed.contains(m.grid.index_of(c) as usize)
            ==> m.doors_at(c).spec_any_open()
}

proof fn lemma_listed_rooms_kept(a: Maze, b: Maze, listed: Set<usize>)
    requires
        only_opens(a, b),
        listed_rooms_open(a, listed),
    ensures
        listed_rooms_open(b, listed),
{
    assert forall|c: Coord|
        b.grid.spec_contains(c) && #[trigger] listed.contains(b.grid.index_of(c) as usize) implies b.doors_at(
            c,
        ).spec_any_open() by {
        lemma_only_opens_any_open(a, b, c);
    }
}

/// Every room along a walk of two or more rooms through open doors has an
/// open door.
proof fn lemma_path_rooms_open(m: Maze, p: Seq<Coord>)
    requires
        m.wf(),
        m.is_open_path(p),
        p.len() >= 2,
    ensures
        forall|k: int| 0 <= k < p.len() ==> (#[trigger] m.doors_at(p[k])).spec_any_open(),
{
    assert forall|k: int| 0 <= k < p.len() implies (#[trigger] m.doors_at(p[k])).spec_any_open() by {
        if k < p.len() - 1 {
            assert(m.open_step(p[k], p[k + 1]));
            let d = choose|d: Direction|
                m.grid.spec_neighbor(p[k], d) == Some(p[k + 1]) && #[trigger] m.door(p[k], d)
                    == Some(DoorState::Open);
            assert(m.doors_at(p[k]).slot(d) == Some(DoorState::Open));
        } else {
            let j = k - 1;
            assert(m.open_step(p[j], p[j + 1]));
            assert(p[j + 1] == p[k]);
            let d = choose|d: Direction|
                m.grid.spec_neighbor(p[j], d) == Some(p[j + 1]) && #[trigger] m.door(p[j], d)
                    == Some(DoorState::Open);
            lemma_neighbor_back(m.grid, p[j], d);
            assert(m.door(p[k], d.spec_opposite()) == Some(DoorState::Open));
            assert(m.doors_at(p[k]).slot(d.spec_opposite()) == Some(DoorState::Open));
        }
    }
}

/// On a grid of two or more rooms, every room has a neighbour.
proof fn lemma_has_neighbor(g: Grid, c: Coord) -> (d: Direction)
    requires
        g.wf(),
        g.spec_contains(c),
        g.size() > 1,
    ensures
        g.spec_neighbor(c, d) is Some,
{
    let (r, k) = (g.n_rows as int, g.n_cols as int);
    assert(r > 1 || k > 1) by (nonlinear_arith)
        requires
            r >= 1,
            k >= 1,
            r * k > 1,
    ;
    if k > 1 {
        if c.col + 1 < g.n_cols {
            Direction::East
        } else {
            Direction::West
        }
    } else {
        if c.row + 1 < g.n_rows {
            Direction::South
        } else {
            Direction::North
        }
    }
}

/// Two distinct rooms make a grid of two or more rooms.
proof fn lemma_two_rooms(g: Grid, a: Coord, b: Coord)
    requires
        g.wf(),
        g.spec_contains(a),
        g.spec_contains(b),
        a != b,
    ensures
        g.size() > 1,
{
    lemma_index_in_range(g, a);
    lemma_index_in_range(g, b);
    lemma_index_injective(g, a, b);
}

/// Carves doors so that the goal can be reached from the player's room.
///
/// Each attempt walks at random from the player's room, never back into a
/// room it has already entered, opening every door it passes, until it
/// reaches the goal or is stuck. A stuck attempt is dropped, but its doors
/// stay open, and the next attempt starts over. Every room an attempt
/// leaves is recorded as visited. Once the goal is reached, each room never
/// recorded gets one more door, opened in a random direction.
pub fn seed_doors_path(maze: &mut Maze, rng: &mut StdRng)
    requires
        old(maze).wf(),
    ensures
        final(maze).wf(),
        only_opens(*old(maze), *final(maze)),
        final(maze).reachable(final(maze).current_ix, final(maze).goal),
        final(maze).grid.size() > 1 ==> forall|c: Coord| #[trigger]
            final(maze).grid.spec_contains(c) ==> final(maze).doors_at(c).spec_any_open(),
{
    let ghost orig = *maze;
    let grid = maze.grid;
    let start = maze.current_ix;
    let goal = maze.goal;
    let mut all_visited: BTreeSet<usize> = BTreeSet::new();
    let mut reached = false;
    let mut attempts: u64 = 0;
    proof {
        lemma_only_opens_refl(*maze);
        lemma_indices_below(grid.size());
    }
    while !reached && attempts < ATTEMPT_LIMIT
        invariant
            maze.wf(),
            only_opens(orig, *maze),
            maze.grid == grid,
            grid == orig.grid,
            maze.current_ix == start,
            maze.goal == goal,
            reached ==> maze.reachable(start, goal),
            listed_rooms_open(*maze, all_visited@),
            indices_below(grid.size()).finite(),
            indices_below(grid.size()).len() == grid.size(),
            forall|x: usize| #[trigger] indices_below(grid.size()).contains(x) <==> (x as nat) < grid.size(),
        decreases ATTEMPT_LIMIT - attempts,
    {
        attempts = attempts + 1;
        let mut visited: BTreeSet<usize> = BTreeSet::new();
        let mut trail: Vec<usize> = Vec::new();
        let mut curr = start;
        let ghost mut path: Seq<Coord> = seq![start];
        proof {
            lemma_index_in_range(grid, start);
        }
        loop
            invariant_except_break
                !reached,
                !visited@.contains(grid.index_of(curr) as usize),
                trail@.len() + 1 == path.len(),
            invariant
                maze.wf(),
                only_opens(orig, *maze),
                maze.grid == grid,
                grid == orig.grid,
                maze.current_ix == start,
                maze.goal == goal,
                reached ==> maze.reachable(start, goal),
                listed_rooms_open(*maze, all_visited@),
                grid.spec_contains(curr),
                0 <= grid.index_of(curr) < grid.size(),
                maze.is_open_path(path),
                path[0] == start,
                path.last() == curr,
                forall|k: int| 0 <= k < path.len() ==> grid.spec_contains(#[trigger] path[k]),
                forall|k: int|
                    0 <= k < trail@.len() ==> #[trigger] trail@[k] == grid.index_of(path[k]) as usize,
                forall|x: usize| visited@.contains(x) <==> #[trigger] trail@.contains(x),
                visited@.subset_of(indices_below(grid.size())),
                indices_below(grid.size()).finite(),
                indices_below(grid.size()).len() == grid.size(),
                forall|x: usize| #[trigger] indices_below(grid.size()).contains(x) <==> (x as nat) < grid.size(),
            ensures
                maze.wf(),
                only_opens(orig, *maze),
                maze.grid == grid,
                maze.current_ix == start,
                maze.goal == goal,
                reached ==> maze.reachable(start, goal),
                listed_rooms_open(*maze, all_visited@),
            decreases grid.size() - visited@.len(),
        {
            if curr == goal {
                proof {
                    assert(maze.is_open_path(path) && path[0] == start && path.last() == goal);
                    if path.len() >= 2 {
                        lemma_path_rooms_open(*maze, path);
                    }
                }
                let ghost listed_before = all_visited@;
                merge_trail(&mut all_visited, &trail);
                proof {
                    assert forall|c: Coord|
                        maze.grid.spec_contains(c) && #[trigger] all_visited@.contains(
                            maze.grid.index_of(c) as usize,
                        ) implies maze.doors_at(c).spec_any_open() by {
                        let x = grid.index_of(c) as usize;
                        if !listed_before.contains(x) {
                            let k = choose|k: int| 0 <= k < trail@.len() && trail@[k] == x;
                            assert(trail@[k] == grid.index_of(path[k]) as usize);
                            lemma_index_in_range(grid, c);
                            lemma_index_in_range(grid, path[k]);
                            lemma_index_injective(grid, c, path[k]);
                            assert(maze.doors_at(path[k]).spec_any_open());
                        }
                    }
                }
                reached = true;
                break;
            }
            let i = grid.flat_index(curr);
            let ghost trail_before = trail@;
            visited.insert(i);
            trail.push(i);
            proof {
                lemma_len_subset(visited@, indices_below(grid.size()));
                assert forall|x: usize| visited@.contains(x) <==> #[trigger] trail@.contains(x) by {
                    if trail@.contains(x) {
                        let k = choose|k: int| 0 <= k < trail@.len() && trail@[k] == x;
                        if k < trail_before.len() {
                            assert(trail_before[k] == x);
                        }
                    }
                    if trail_before.contains(x) {
                        let k = choose|k: int| 0 <= k < trail_before.len() && trail_before[k] == x;
                        assert(trail@[k] == x);
                    }
                    if x == i {
                        assert(trail@[trail@.len() - 1] == x);
                    }
                }
            }
            let available = unvisited_directions(&grid, &visited, curr);
            match choose_direction(rng, &available) {
                None => {
                    proof {
                        if path.len() == 1 {
                            lemma_two_rooms(grid, start, goal);
                            let d = lemma_has_neighbor(grid, curr);
                            let n = grid.spec_neighbor(curr, d).unwrap();
                            lemma_index_injective(grid, n, curr);
                            if trail@.contains(grid.index_of(n) as usize) {
                                let k = choose|k: int|
                                    0 <= k < trail@.len() && trail@[k] == grid.index_of(n) as usize;
                                assert(k == 0);
                                lemma_index_in_range(grid, n);
                            }
                            assert(unvisited_toward(grid, visited@, curr, d));
                            assert(available@.contains(d));
                        }
                        lemma_path_rooms_open(*maze, path);
                    }
                    let ghost listed_before = all_visited@;
                    merge_trail(&mut all_visited, &trail);
                    proof {
                        assert forall|c: Coord|
                            maze.grid.spec_contains(c) && #[trigger] all_visited@.contains(
                                maze.grid.index_of(c) as usize,
                            ) implies maze.doors_at(c).spec_any_open() by {
                            let x = grid.index_of(c) as usize;
                            if !listed_before.contains(x) {
                                let k = choose|k: int| 0 <= k < trail@.len() && trail@[k] == x;
                                assert(trail@[k] == grid.index_of(path[k]) as usize);
                                lemma_index_in_range(grid, c);
                                lemma_index_in_range(grid, path[k]);
                                lemma_index_injective(grid, c, path[k]);
                                assert(maze.doors_at(path[k]).spec_any_open());
                            }
                        }
                    }
                    break;
                },
                Some(d) => {
                    assert(available@.contains(d));
                    let ghost prev = *maze;
                    let next = open_and_step(maze, curr, d, Ghost(path));
                    proof {
                        lemma_only_opens_trans(orig, prev, *maze);
                        lemma_listed_rooms_kept(prev, *maze, all_visited@);
                        path = path.push(next);
                        lemma_index_in_range(grid, next);
                    }
                    curr = next;
                },
            }
        }
    }
    if !reached {
        let ghost prev = *maze;
        carve_straight(maze, start);
        proof {
            lemma_only_opens_trans(orig, prev, *maze);
            lemma_listed_rooms_kept(prev, *maze, all_visited@);
        }
    }
    let idxs = grid.indices();
    let mut k: usize = 0;
    while k < idxs.len()
        invariant
            maze.wf(),
            only_opens(orig, *maze),
            maze.grid == grid,
            maze.current_ix == start,
            maze.goal == goal,
            maze.reachable(start, goal),
            listed_rooms_open(*maze, all_visited@),
            grid.wf(),
            k <= idxs@.len(),
            idxs@.len() == grid.size(),
            forall|j: int|
                0 <= j < idxs@.len() ==> grid.spec_contains(#[trigger] idxs@[j]) && grid.index_of(
                    idxs@[j],
                ) == j,
            grid.size() > 1 ==> forall|j: int|
                0 <= j < k ==> (#[trigger] maze.doors_at(idxs@[j])).spec_any_open(),
        decreases idxs@.len() - k,
    {
        let ix = idxs[k];
        let i = grid.flat_index(ix);
        if !all_visited.contains(&i) {
            let dirs = maze.doors(ix).available_directions();
            match choose_direction(rng, &dirs) {
                Some(d) => {
                    let ghost prev = *maze;
                    assert(dirs@.contains(d));
                    open_door(maze, ix, d);
                    proof {
                        lemma_only_opens_trans(orig, prev, *maze);
                        lemma_only_opens_keeps_open(prev, *maze);
                        lemma_reachable_kept(prev, *maze, start, goal);
                        lemma_listed_rooms_kept(prev, *maze, all_visited@);
                        assert(maze.door(ix, d) == prev.door_after(ix, d, DoorState::Open, ix, d));
                        assert(maze.doors_at(ix).slot(d) == Some(DoorState::Open));
                        if grid.size() > 1 {
                            assert forall|j: int| 0 <= j < k implies (#[trigger] maze.doors_at(
                                idxs@[j],
                            )).spec_any_open() by {
                                lemma_only_opens_any_open(prev, *maze, idxs@[j]);
                            }
                        }
                    }
                },
                None => {
                    proof {
                        if grid.size() > 1 {
                            let d0 = lemma_has_neighbor(grid, ix);
                            assert(maze.door(ix, d0) is Some);
                            assert(dirs@.contains(d0));
                        }
                    }
                },
            }
        } else {
            proof {
                assert(all_visited@.contains(grid.index_of(ix) as usize));
            }
        }
        proof {
            if grid.size() > 1 {
                assert(maze.doors_at(idxs@[k as int]).spec_any_open());
            }
        }
        k = k + 1;
    }
    proof {
        if grid.size() > 1 {
            assert forall|c: Coord| #[trigger] grid.spec_contains(c) implies maze.doors_at(
                c,
            ).spec_any_open() by {
                lemma_index_in_range(grid, c);
                let j = grid.index_of(c);
                lemma_index_injective(grid, c, idxs@[j]);
                assert(maze.doors_at(idxs@[j]).spec_any_open());
            }
        }
    }
}

/// Opens a straight corridor from `start` east to the goal's column, then
/// south to the goal.
fn carve_straight(maze: &mut Maze, start: Coord)
    requires
        old(maze).wf(),
        old(maze).grid.spec_contains(start),
    ensures
        final(maze).wf(),
        only_opens(*old(maze), *final(maze)),
        final(maze).reachable(start, final(maze).goal),
{
    let ghost orig = *maze;
    let goal = maze.goal;
    let mut curr = start;
    let ghost mut path: Seq<Coord> = seq![start];
    proof {
        lemma_only_opens_refl(*maze);
    }
    while curr.col < goal.col
        invariant
            maze.wf(),
            only_opens(orig, *maze),
            maze.goal == goal,
            goal == orig.goal,
            maze.grid.spec_contains(curr),
            curr.row == start.row,
            maze.is_open_path(path),
            path[0] == start,
            path.last() == curr,
        decreases goal.col - curr.col,
    {
        let ghost prev = *maze;
        let next = open_and_step(maze, curr, Direction::East, Ghost(path));
        proof {
            lemma_only_opens_trans(orig, prev, *maze);
            path = path.push(next);
        }
        curr = next;
    }
    while curr.row < goal.row
        invariant
            maze.wf(),
            only_opens(orig, *maze),
            maze.goal == goal,
            goal == orig.goal,
            maze.grid.spec_contains(curr),
            curr.col == goal.col,
            maze.is_open_path(path),
            path[0] == start,
            path.last() == curr,
        decreases goal.row - curr.row,
    {
        let ghost prev = *maze;
        let next = open_and_step(maze, curr, Direction::South, Ghost(path));
        proof {
            lemma_only_opens_trans(orig, prev, *maze);
            path = path.push(next);
        }
        curr = next;
    }
    proof {
        assert(curr == goal);
    }
}

/// A room with any door at all has an open one.
pub open spec fn room_not_sealed(m: Maze, c: Coord) -> bool {
    m.doors_at(c).spec_any_present() ==> m.doors_at(c).spec_any_open()
}

proof fn lemma_not_sealed_kept(a: Maze, b: Maze, c: Coord)
    requires
        only_opens(a, b),
        a.grid.spec_contains(c),
        room_not_sealed(a, c),
    ensures
        room_not_sealed(b, c),
{
    if b.doors_at(c).spec_any_present() {
        let d = choose|d: Direction| (#[trigger] b.doors_at(c).slot(d)) is Some;
        assert(b.door(c, d) is Some);
        lemma_only_opens_present(a, b, c, d);
        assert(a.doors_at(c).slot(d) is Some);
        lemma_only_opens_any_open(a, b, c);
    }
}

/// Flips a coin for each door of `ix`, opening those that come up, and
/// flips again while the room has doors but none of them open.
fn seed_room_naive(maze: &mut Maze, rng: &mut StdRng, ix: Coord)
    requires
        old(maze).wf(),
        old(maze).grid.spec_contains(ix),
    ensures
        final(maze).wf(),
        only_opens(*old(maze), *final(maze)),
        room_not_sealed(*final(maze), ix),
{
    let ghost orig = *maze;
    let mut tries: u64 = 0;
    proof {
        lemma_only_opens_refl(*maze);
    }
    loop
        invariant_except_break
            tries < ATTEMPT_LIMIT,
        invariant
            maze.wf(),
            only_opens(orig, *maze),
            maze.grid == orig.grid,
            orig.grid.spec_contains(ix),
        ensures
            maze.wf(),
            only_opens(orig, *maze),
            maze.grid == orig.grid,
        decreases ATTEMPT_LIMIT - tries,
    {
        let ghost p0 = *maze;
        if flip_coin(rng) {
            open_door(maze, ix, Direction::North);
        }
        let ghost p1 = *maze;
        if flip_coin(rng) {
            open_door(maze, ix, Direction::South);
        }
        let ghost p2 = *maze;
        if flip_coin(rng) {
            open_door(maze, ix, Direction::East);
        }
        let ghost p3 = *maze;
        if flip_coin(rng) {
            open_door(maze, ix, Direction::West);
        }
        proof {
            lemma_only_opens_refl(p0);
            lemma_only_opens_trans(orig, p0, p1);
            lemma_only_opens_trans(orig, p1, p2);
            lemma_only_opens_trans(orig, p2, p3);
            lemma_only_opens_trans(orig, p3, *maze);
        }
        tries = tries + 1;
        let doors = maze.doors(ix);
        if doors.any_open() || !doors.any_present() || tries == ATTEMPT_LIMIT {
            break;
        }
    }
    let doors = maze.doors(ix);
    if !doors.any_open() {
        let dirs = doors.available_directions();
        if dirs.len() > 0 {
            let d = dirs[0];
            assert(dirs@.contains(d));
            let ghost prev = *maze;
            open_door(maze, ix, d);
            proof {
                lemma_only_opens_trans(orig, prev, *maze);
                assert(maze.door(ix, d) == prev.door_after(ix, d, DoorState::Open, ix, d));
                assert(maze.doors_at(ix).slot(d) == Some(DoorState::Open));
            }
        } else {
            proof {
                if doors.spec_any_present() {
                    let d = choose|d: Direction| (#[trigger] doors.slot(d)) is Some;
                    assert(dirs@.contains(d));
                }
            }
        }
    }
}

/// Opens doors at random, room by room in row-major order: a coin for each
/// door, flipped again until the room has an open door. Then, if the
/// top-left room has its east and south doors closed, it opens its west or
/// its south door at random; and if the bottom-right room has its west and
/// north doors closed, it opens its east or its north door at random.
/// Nothing makes the goal reachable.
pub fn seed_doors_naive(maze: &mut Maze, rng: &mut StdRng)
    requires
        old(maze).wf(),
    ensures
        final(maze).wf(),
        only_opens(*old(maze), *final(maze)),
        forall|c: Coord| #[trigger] final(maze).grid.spec_contains(c) ==> room_not_sealed(*final(maze), c),
        final(maze).grid.size() > 1 ==> corners_not_sealed(*final(maze)),
{
    let ghost orig = *maze;
    let grid = maze.grid;
    let idxs = grid.indices();
    let mut k: usize = 0;
    proof {
        lemma_only_opens_refl(*maze);
    }
    while k < idxs.len()
        invariant
            maze.wf(),
            only_opens(orig, *maze),
            maze.grid == grid,
            grid == orig.grid,
            grid.wf(),
            k <= idxs@.len(),
            idxs@.len() == grid.size(),
            forall|i: int|
                0 <= i < idxs@.len() ==> grid.spec_contains(#[trigger] idxs@[i]) && grid.index_of(
                    idxs@[i],
                ) == i,
            forall|j: int| 0 <= j < k ==> #[trigger] room_not_sealed(*maze, idxs@[j]),
        decreases idxs@.len() - k,
    {
        let ix = idxs[k];
        let ghost prev = *maze;
        seed_room_naive(maze, rng, ix);
        proof {
            lemma_only_opens_trans(orig, prev, *maze);
            assert forall|j: int| 0 <= j < k + 1 implies #[trigger] room_not_sealed(*maze, idxs@[j]) by {
                if j < k {
                    lemma_not_sealed_kept(prev, *maze, idxs@[j]);
                }
            }
        }
        k = k + 1;
    }
    proof {
        assert forall|c: Coord| grid.spec_contains(c) implies #[trigger] room_not_sealed(*maze, c) by {
            lemma_index_in_range(grid, c);
            let j = grid.index_of(c);
            assert(room_not_sealed(*maze, idxs@[j]));
            lemma_index_injective(grid, c, idxs@[j]);
        }
    }
    let start = grid.min();
    let sd = maze.doors(start);
    if sd.east == Some(DoorState::Closed) && sd.south == Some(DoorState::Closed) {
        let ghost prev = *maze;
        if flip_coin(rng) {
            open_door(maze, start, Direction::West);
        } else {
            open_door(maze, start, Direction::South);
        }
        proof {
            lemma_only_opens_trans(orig, prev, *maze);
            assert forall|c: Coord| grid.spec_contains(c) implies #[trigger] room_not_sealed(*maze, c) by {
                lemma_not_sealed_kept(prev, *maze, c);
            }
        }
    }
    let end = grid.max();
    let ed = maze.doors(end);
    if ed.west == Some(DoorState::Closed) && ed.north == Some(DoorState::Closed) {
        let ghost prev = *maze;
        if flip_coin(rng) {
            open_door(maze, end, Direction::East);
        } else {
            open_door(maze, end, Direction::North);
        }
        proof {
            lemma_only_opens_trans(orig, prev, *maze);
            assert forall|c: Coord| grid.spec_contains(c) implies #[trigger] room_not_sealed(*maze, c) by {
                lemma_not_sealed_kept(prev, *maze, c);
            }
        }
    }
    proof {
        if grid.size() > 1 {
            lemma_corners_not_sealed(*maze);
        }
    }
}

/// The top-left room has an open door east or south, and the bottom-right
/// room one west or north.
pub open spec fn corners_not_sealed(m: Maze) -> bool {
    let s = m.grid.spec_min();
    let g = m.grid.spec_max();
    &&& (m.door(s, Direction::East) == Some(DoorState::Open) || m.door(s, Direction::South)
        == Some(DoorState::Open))
    &&& (m.door(g, Direction::West) == Some(DoorState::Open) || m.door(g, Direction::North)
        == Some(DoorState::Open))
}

proof fn lemma_corners_not_sealed(m: Maze)
    requires
        m.wf(),
        m.grid.size() > 1,
        forall|c: Coord| #[trigger] m.grid.spec_contains(c) ==> room_not_sealed(m, c),
    ensures
        corners_not_sealed(m),
{
    let g = m.grid;
    let (r, k) = (g.n_rows as int, g.n_cols as int);
    assert(r > 1 || k > 1) by (nonlinear_arith)
        requires
            r >= 1,
            k >= 1,
            r * k > 1,
    ;
    let s = g.spec_min();
    let e = g.spec_max();
    assert(g.spec_contains(s) && g.spec_contains(e));
    assert(room_not_sealed(m, s));
    assert(room_not_sealed(m, e));
    if r > 1 {
        assert(m.door(s, Direction::South) is Some);
        assert(m.doors_at(s).slot(Direction::South) is Some);
        assert(m.door(e, Direction::North) is Some);
        assert(m.doors_at(e).slot(Direction::North) is Some);
    } else {
        assert(m.door(s, Direction::East) is Some);
        assert(m.doors_at(s).slot(Direction::East) is Some);
        assert(m.door(e, Direction::West) is Some);
        assert(m.doors_at(e).slot(Direction::West) is Some);
    }
    let ds = choose|d: Direction| #[trigger] m.doors_at(s).slot(d) == Some(DoorState::Open);
    assert(m.door(s, ds) == Some(DoorState::Open));
    assert(m.door(s, Direction::North) is None);
    assert(m.door(s, Direction::West) is None);
    let de = choose|d: Direction| #[trigger] m.doors_at(e).slot(d) == Some(DoorState::Open);
    assert(m.door(e, de) == Some(DoorState::Open));
    assert(m.door(e, Direction::South) is None);
    assert(m.door(e, Direction::East) is None);
}

} // verus!
