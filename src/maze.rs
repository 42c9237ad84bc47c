//! Rooms, their doors, and the player's walk through them.
use vstd::prelude::*;

use crate::grid::{lemma_index_in_range, lemma_index_injective, lemma_neighbor_back, Coord, Grid};
use crate::{directions_flagged, directions_where, flag_of, Direction};

verus! {

#[derive(Clone, Copy, Debug, PartialEq, Eq, Structural)]
pub enum DoorState {
    Open,
    Closed,
}

/// The four door slots of a room. `None` stands where the room lies on the
/// edge of the grid and has no door at all.
#[derive(Clone, Copy, Debug, PartialEq, Eq, Structural)]
pub struct Doors {
    pub north: Option<DoorState>,
    pub east: Option<DoorState>,
    pub south: Option<DoorState>,
    pub west: Option<DoorState>,
}

/// `s` with the door, if there is one, set to `to`.
pub open spec fn set_if_present(s: Option<DoorState>, to: DoorState) -> Option<DoorState> {
    match s {
        Some(_) => Some(to),
        None => None,
    }
}

impl Doors {
    /// The slot facing `d`.
    pub open spec fn slot(self, d: Direction) -> Option<DoorState> {
        match d {
            Direction::North => self.north,
            Direction::East => self.east,
            Direction::South => self.south,
            Direction::West => self.west,
        }
    }

    pub open spec fn spec_any_open(self) -> bool {
        exists|d: Direction| #[trigger] self.slot(d) == Some(DoorState::Open)
    }

    pub open spec fn spec_any_present(self) -> bool {
        exists|d: Direction| (#[trigger] self.slot(d)) is Some
    }

    pub fn get(&self, d: Direction) -> (r: Option<DoorState>)
        ensures
            r == self.slot(d),
    {
        match d {
            Direction::North => self.north,
            Direction::East => self.east,
            Direction::South => self.south,
            Direction::West => self.west,
        }
    }

    /// Whether some door of the room is open.
    pub fn any_open(&self) -> (r: bool)
        ensures
            r == self.spec_any_open(),
    {
        let r = self.north == Some(DoorState::Open) || self.east == Some(DoorState::Open)
            || self.south == Some(DoorState::Open) || self.west == Some(DoorState::Open);
        proof {
            if !r {
                assert forall|d: Direction| #[trigger] self.slot(d) != Some(DoorState::Open) by {
                    match d {
                        Direction::North => {},
                        Direction::East => {},
                        Direction::South => {},
                        Direction::West => {},
                    }
                }
            } else if self.north == Some(DoorState::Open) {
                assert(self.slot(Direction::North) == Some(DoorState::Open));
            } else if self.east == Some(DoorState::Open) {
                assert(self.slot(Direction::East) == Some(DoorState::Open));
            } else if self.south == Some(DoorState::Open) {
                assert(self.slot(Direction::South) == Some(DoorState::Open));
            } else {
                assert(self.slot(Direction::West) == Some(DoorState::Open));
            }
        }
        r
    }

    /// Whether the room has a door slot at all (only a room with no
    /// neighbour has none).
    pub fn any_present(&self) -> (r: bool)
        ensures
            r == self.spec_any_present(),
    {
        let r = self.north.is_some() || self.east.is_some() || self.south.is_some()
            || self.west.is_some();
        proof {
            if !r {
                assert forall|d: Direction| !((#[trigger] self.slot(d)) is Some) by {
                    match d {
                        Direction::North => {},
                        Direction::East => {},
                        Direction::South => {},
                        Direction::West => {},
                    }
                }
            } else if self.north.is_some() {
                assert(self.slot(Direction::North) is Some);
            } else if self.east.is_some() {
                assert(self.slot(Direction::East) is Some);
            } else if self.south.is_some() {
                assert(self.slot(Direction::South) is Some);
            } else {
                assert(self.slot(Direction::West) is Some);
            }
        }
        r
    }

    /// The directions in which the room has a door, clockwise from north.
    pub fn available_directions(&self) -> (r: Vec<Direction>)
        ensures
            r@ == directions_flagged(
                self.north is Some,
                self.east is Some,
                self.south is Some,
                self.west is Some,
            ),
            forall|d: Direction| #[trigger] r@.contains(d) <==> self.slot(d) is Some,
    {
        let r = directions_where(
            self.north.is_some(),
            self.east.is_some(),
            self.south.is_some(),
            self.west.is_some(),
        );
        proof {
            assert forall|d: Direction| #[trigger] r@.contains(d) <==> self.slot(d) is Some by {
                assert(r@.contains(d) <==> flag_of(
                    self.north is Some,
                    self.east is Some,
                    self.south is Some,
                    self.west is Some,
                    d,
                ));
            }
        }
        r
    }

    /// Sets the slot facing `d` to `to`, unless the room has no door there.
    pub fn set(&mut self, d: Direction, to: DoorState)
        ensures
            forall|e: Direction|
                #[trigger] final(self).slot(e) == if e == d {
                    set_if_present(old(self).slot(e), to)
                } else {
                    old(self).slot(e)
                },
    {
        match d {
            Direction::North => if self.north.is_some() {
                self.north = Some(to);
            },
            Direction::East => if self.east.is_some() {
                self.east = Some(to);
            },
            Direction::South => if self.south.is_some() {
                self.south = Some(to);
            },
            Direction::West => if self.west.is_some() {
                self.west = Some(to);
            },
        }
    }

    pub fn open_north(&mut self)
        ensures
            *final(self) == (Doors {
                north: set_if_present(old(self).north, DoorState::Open),
                ..*old(self)
            }),
    {
        if self.north.is_some() {
            self.north = Some(DoorState::Open)
        }
    }

    pub fn open_east(&mut self)
        ensures
            *final(self) == (Doors {
                east: set_if_present(old(self).east, DoorState::Open),
                ..*old(self)
            }),
    {
        if self.east.is_some() {
            self.east = Some(DoorState::Open)
        }
    }

    pub fn open_south(&mut self)
        ensures
            *final(self) == (Doors {
                south: set_if_present(old(self).south, DoorState::Open),
                ..*old(self)
            }),
    {
        if self.south.is_some() {
            self.south = Some(DoorState::Open)
        }
    }

    pub fn open_west(&mut self)
        ensures
            *final(self) == (Doors {
                west: set_if_present(old(self).west, DoorState::Open),
                ..*old(self)
            }),
    {
        if self.west.is_some() {
            self.west = Some(DoorState::Open)
        }
    }

    pub fn close_north(&mut self)
        ensures
            *final(self) == (Doors {
                north: set_if_present(old(self).north, DoorState::Closed),
                ..*old(self)
            }),
    {
        if self.north.is_some() {
            self.north = Some(DoorState::Closed)
        }
    }

    pub fn close_east(&mut self)
        ensures
            *final(self) == (Doors {
                east: set_if_present(old(self).east, DoorState::Closed),
                ..*old(self)
            }),
    {
        if self.east.is_some() {
            self.east = Some(DoorState::Closed)
        }
    }

    pub fn close_south(&mut self)
        ensures
            *final(self) == (Doors {
                south: set_if_present(old(self).south, DoorState::Closed),
                ..*old(self)
            }),
    {
        if self.south.is_some() {
            self.south = Some(DoorState::Closed)
        }
    }

    pub fn close_west(&mut self)
        ensures
            *final(self) == (Doors {
                west: set_if_present(old(self).west, DoorState::Closed),
                ..*old(self)
            }),
    {
        if self.west.is_some() {
            self.west = Some(DoorState::Closed)
        }
    }
}

impl Default for Doors {
    /// A room with a closed door on every side.
    fn default() -> (r: Self)
        ensures
            r == (Doors {
                north: Some(DoorState::Closed),
                east: Some(DoorState::Closed),
                south: Some(DoorState::Closed),
                west: Some(DoorState::Closed),
            }),
    {
        Self {
            north: Some(DoorState::Closed),
            east: Some(DoorState::Closed),
            south: Some(DoorState::Closed),
            west: Some(DoorState::Closed),
        }
    }
}


/// A room: its doors, and a label for display.
#[derive(Clone, Debug, Default)]
pub struct Room {
    pub description: String,
    pub doors: Doors,
}

/// The label shown for the room at `c`.
/// Relies on std's `format!` with the derived `Debug` of `Coord`; nothing is
/// assumed of the text.
#[verifier::external_body]
fn room_label(c: Coord) -> String {
    format!("room {c:?}")
}

/// A closed door where `there` is a room, no door otherwise.
pub open spec fn closed_toward(there: Option<Coord>) -> Option<DoorState> {
    if there is Some {
        Some(DoorState::Closed)
    } else {
        None
    }
}

/// A grid of rooms, the player's room `current_ix` and the room to reach, `goal`.
/// The rooms are stored row by row.
pub struct Maze {
    pub grid: Grid,
    pub rooms: Vec<Room>,
    pub current_ix: Coord,
    pub goal: Coord,
}

impl Maze {
    pub open spec fn doors_at(self, c: Coord) -> Doors {
        self.rooms@[self.grid.index_of(c)].doors
    }

    /// The door slot of room `c` facing `d`.
    pub open spec fn door(self, c: Coord, d: Direction) -> Option<DoorState> {
        self.doors_at(c).slot(d)
    }

    /// A slot is empty exactly where the grid ends.
    pub open spec fn boundary_ok(self) -> bool {
        forall|c: Coord, d: Direction|
            self.grid.spec_contains(c) ==> ((#[trigger] self.door(c, d)) is None
                <==> self.grid.spec_neighbor(c, d) is None)
    }

    /// The two sides of every door agree.
    pub open spec fn symmetric(self) -> bool {
        forall|c: Coord, d: Direction|
            self.grid.spec_contains(c) && self.grid.spec_neighbor(c, d) is Some ==> self.door(
                self.grid.spec_neighbor(c, d).unwrap(),
                d.spec_opposite(),
            ) == #[trigger] self.door(c, d)
    }

    pub open spec fn wf(self) -> bool {
        &&& self.grid.wf()
        &&& self.rooms@.len() == self.grid.size()
        &&& self.grid.spec_contains(self.current_ix)
        &&& self.goal == self.grid.spec_max()
        &&& self.boundary_ok()
        &&& self.symmetric()
    }

    /// What slot `(c, e)` holds once the door of `ix` facing `d`, and its
    /// other side, are set to `to`.
    pub open spec fn door_after(
        self,
        ix: Coord,
        d: Direction,
        to: DoorState,
        c: Coord,
        e: Direction,
    ) -> Option<DoorState> {
        if (c == ix && e == d) || (self.grid.spec_neighbor(ix, d) == Some(c) && e
            == d.spec_opposite()) {
            set_if_present(self.door(c, e), to)
        } else {
            self.door(c, e)
        }
    }

    /// Everything but the doors of the rooms is as in `self`: the grid, the
    /// player, the goal, and each room's description.
    pub open spec fn same_frame(self, other: Maze) -> bool {
        &&& other.grid == self.grid
        &&& other.current_ix == self.current_ix
        &&& other.goal == self.goal
        &&& other.rooms@.len() == self.rooms@.len()
        &&& forall|i: int|
            0 <= i < self.rooms@.len() ==> (#[trigger] other.rooms@[i]).description
                == self.rooms@[i].description
    }

    /// Every door open in `self` is open in `later`.
    pub open spec fn keeps_open(self, later: Maze) -> bool {
        &&& later.grid == self.grid
        &&& forall|c: Coord, d: Direction|
            self.grid.spec_contains(c) && self.door(c, d) == Some(DoorState::Open)
                ==> #[trigger] later.door(c, d) == Some(DoorState::Open)
    }

    /// A fresh maze of `n_rows` by `n_cols` rooms: every door between two rooms
    /// closed, the player in the top-left room, the goal in the bottom-right one.
    pub fn new(n_rows: usize, n_cols: usize) -> (r: Maze)
        requires
            0 < n_rows,
            0 < n_cols,
            n_rows * n_cols <= usize::MAX,
        ensures
            r.wf(),
            r.grid == (Grid { n_rows, n_cols }),
            r.current_ix == r.grid.spec_min(),
            r.goal == r.grid.spec_max(),
            forall|c: Coord, d: Direction|
                r.grid.spec_contains(c) ==> #[trigger] r.door(c, d) == closed_toward(
                    r.grid.spec_neighbor(c, d),
                ),
    {
        let grid = Grid { n_rows, n_cols };
        let mut rooms: Vec<Room> = Vec::new();
        let mut row: usize = 0;
        while row < n_rows
            invariant
                grid == (Grid { n_rows, n_cols }),
                grid.wf(),
                row <= n_rows,
                rooms@.len() == row * n_cols,
                forall|c: Coord, d: Direction|
                    grid.spec_contains(c) && grid.index_of(c) < rooms@.len() ==> (
                    #[trigger] rooms@[grid.index_of(c)].doors.slot(d)) == closed_toward(
                        grid.spec_neighbor(c, d),
                    ),
            decreases n_rows - row,
        {
            let mut col: usize = 0;
            while col < n_cols
                invariant
                    grid == (Grid { n_rows, n_cols }),
                    grid.wf(),
                    row < n_rows,
                    col <= n_cols,
                    rooms@.len() == row * n_cols + col,
                    forall|c: Coord, d: Direction|
                        grid.spec_contains(c) && grid.index_of(c) < rooms@.len() ==> (
                        #[trigger] rooms@[grid.index_of(c)].doors.slot(d)) == closed_toward(
                            grid.spec_neighbor(c, d),
                        ),
                decreases n_cols - col,
            {
                let ix = Coord { row, col };
                let doors = Doors {
                    north: closed_if(grid.neighbor(ix, Direction::North).is_some()),
                    east: closed_if(grid.neighbor(ix, Direction::East).is_some()),
                    south: closed_if(grid.neighbor(ix, Direction::South).is_some()),
                    west: closed_if(grid.neighbor(ix, Direction::West).is_some()),
                };
                let ghost before = rooms@;
                rooms.push(Room { description: room_label(ix), doors });
                proof {
                    assert forall|c: Coord, d: Direction|
                        grid.spec_contains(c) && grid.index_of(c) < rooms@.len() implies (
                        #[trigger] rooms@[grid.index_of(c)].doors.slot(d)) == closed_toward(
                            grid.spec_neighbor(c, d),
                        ) by {
                        lemma_index_injective(grid, c, ix);
                        if grid.index_of(c) < before.len() {
                            assert(rooms@[grid.index_of(c)] == before[grid.index_of(c)]);
                        } else {
                            assert(c == ix);
                        }
                    }
                }
                col = col + 1;
            }
            proof {
                assert((row + 1) * n_cols == row * n_cols + n_cols) by (nonlinear_arith);
            }
            row = row + 1;
        }
        let m = Maze {
            grid,
            rooms,
            current_ix: Coord { row: 0, col: 0 },
            goal: Coord { row: n_rows - 1, col: n_cols - 1 },
        };
        proof {
            assert forall|c: Coord, d: Direction| m.grid.spec_contains(c) implies #[trigger] m.door(
                c,
                d,
            ) == closed_toward(m.grid.spec_neighbor(c, d)) by {
                lemma_index_in_range(grid, c);
            }
            assert forall|c: Coord, d: Direction|
                m.grid.spec_contains(c) && m.grid.spec_neighbor(c, d) is Some implies m.door(
                    m.grid.spec_neighbor(c, d).unwrap(),
                    d.spec_opposite(),
                ) == #[trigger] m.door(c, d) by {
                let n = m.grid.spec_neighbor(c, d).unwrap();
                lemma_neighbor_back(grid, c, d);
                lemma_index_in_range(grid, c);
                lemma_index_in_range(grid, n);
            }
        }
        m
    }

    /// The coordinate `(row, col)`, if it lies on this maze's grid.
    pub fn coord(&self, row: usize, col: usize) -> (r: Option<Coord>)
        ensures
            r is Some <==> (row < self.grid.n_rows && col < self.grid.n_cols),
            r matches Some(c) ==> c.row == row && c.col == col,
    {
        self.grid.ix(row, col)
    }

    /// The room at `ix`.
    pub fn room(&self, ix: Coord) -> (r: &Room)
        requires
            self.wf(),
            self.grid.spec_contains(ix),
        ensures
            *r == self.rooms@[self.grid.index_of(ix)],
    {
        let i = self.grid.flat_index(ix);
        &self.rooms[i]
    }

    /// The doors of the room at `ix`.
    pub fn doors(&self, ix: Coord) -> (r: Doors)
        requires
            self.wf(),
            self.grid.spec_contains(ix),
        ensures
            r == self.doors_at(ix),
    {
        let i = self.grid.flat_index(ix);
        self.rooms[i].doors
    }

    /// The door slot of the room at `ix` facing `d`.
    pub fn door_state(&self, ix: Coord, d: Direction) -> (r: Option<DoorState>)
        requires
            self.wf(),
            self.grid.spec_contains(ix),
        ensures
            r == self.door(ix, d),
    {
        let i = self.grid.flat_index(ix);
        self.rooms[i].doors.get(d)
    }
}

impl Maze {
    /// Sets the door of room `ix` facing `d`, and the same door seen from the
    /// neighbouring room, to `to`. Where there is no door (the edge of the
    /// grid), or `ix` is off the grid, nothing changes.
    pub fn set_door(&mut self, ix: Coord, d: Direction, to: DoorState)
        requires
            old(self).wf(),
        ensures
            final(self).wf(),
            old(self).same_frame(*final(self)),
            forall|c: Coord, e: Direction|
                old(self).grid.spec_contains(c) ==> #[trigger] final(self).door(c, e)
                    == old(self).door_after(ix, d, to, c, e),
            old(self).grid.spec_neighbor(ix, d) is None ==> *final(self) == *old(self),
    {
        let ghost prev = *self;
        if !self.grid.contains(ix) {
            proof {
                assert forall|c: Coord, e: Direction| prev.grid.spec_contains(c) implies #[trigger] prev.door(c, e)
                    == prev.door_after(ix, d, to, c, e) by {}
            }
            return;
        }
        let i = self.grid.flat_index(ix);
        if self.rooms[i].doors.get(d).is_none() {
            proof {
                assert(prev.door(ix, d) is None);
                assert forall|c: Coord, e: Direction| prev.grid.spec_contains(c) implies #[trigger] prev.door(c, e)
                    == prev.door_after(ix, d, to, c, e) by {}
            }
            return;
        }
        self.rooms[i].doors.set(d, to);
        let nb = self.grid.neighbor(ix, d);
        match nb {
            Some(n) => {
                let j = self.grid.flat_index(n);
                self.rooms[j].doors.set(d.opposite(), to);
            },
            None => {},
        }
        proof {
            lemma_neighbor_back(prev.grid, ix, d);
            assert forall|c: Coord, e: Direction| prev.grid.spec_contains(c) implies #[trigger] self.door(c, e)
                == prev.door_after(ix, d, to, c, e) by {
                lemma_index_injective(prev.grid, c, ix);
                lemma_index_in_range(prev.grid, c);
                if let Some(n) = nb {
                    lemma_index_injective(prev.grid, c, n);
                    lemma_index_injective(prev.grid, ix, n);
                }
            }
            lemma_set_door_keeps_wf(prev, *self, ix, d, to);
        }
    }
}

impl Maze {
    /// Sets the north door of `ix`, and its other side, to `Open`.
    pub fn open_north(&mut self, ix: Coord)
        requires
            old(self).wf(),
        ensures
            final(self).wf(),
            old(self).same_frame(*final(self)),
            forall|c: Coord, e: Direction|
                old(self).grid.spec_contains(c) ==> #[trigger] final(self).door(c, e)
                    == old(self).door_after(ix, Direction::North, DoorState::Open, c, e),
            old(self).grid.spec_neighbor(ix, Direction::North) is None ==> *final(self) == *old(self),
    {
        self.set_door(ix, Direction::North, DoorState::Open);
    }

    /// Sets the east door of `ix`, and its other side, to `Open`.
    pub fn open_east(&mut self, ix: Coord)
        requires
            old(self).wf(),
        ensures
            final(self).wf(),
            old(self).same_frame(*final(self)),
            forall|c: Coord, e: Direction|
                old(self).grid.spec_contains(c) ==> #[trigger] final(self).door(c, e)
                    == old(self).door_after(ix, Direction::East, DoorState::Open, c, e),
            old(self).grid.spec_neighbor(ix, Direction::East) is None ==> *final(self) == *old(self),
    {
        self.set_door(ix, Direction::East, DoorState::Open);
    }

    /// Sets the south door of `ix`, and its other side, to `Open`.
    pub fn open_south(&mut self, ix: Coord)
        requires
            old(self).wf(),
        ensures
            final(self).wf(),
            old(self).same_frame(*final(self)),
            forall|c: Coord, e: Direction|
                old(self).grid.spec_contains(c) ==> #[trigger] final(self).door(c, e)
                    == old(self).door_after(ix, Direction::South, DoorState::Open, c, e),
            old(self).grid.spec_neighbor(ix, Direction::South) is None ==> *final(self) == *old(self),
    {
        self.set_door(ix, Direction::South, DoorState::Open);
    }

    /// Sets the west door of `ix`, and its other side, to `Open`.
    pub fn open_west(&mut self, ix: Coord)
        requires
            old(self).wf(),
        ensures
            final(self).wf(),
            old(self).same_frame(*final(self)),
            forall|c: Coord, e: Direction|
                old(self).grid.spec_contains(c) ==> #[trigger] final(self).door(c, e)
                    == old(self).door_after(ix, Direction::West, DoorState::Open, c, e),
            old(self).grid.spec_neighbor(ix, Direction::West) is None ==> *final(self) == *old(self),
    {
        self.set_door(ix, Direction::West, DoorState::Open);
    }

    /// Sets the north door of `ix`, and its other side, to `Closed`.
    pub fn close_north(&mut self, ix: Coord)
        requires
            old(self).wf(),
        ensures
            final(self).wf(),
            old(self).same_frame(*final(self)),
            forall|c: Coord, e: Direction|
                old(self).grid.spec_contains(c) ==> #[trigger] final(self).door(c, e)
                    == old(self).door_after(ix, Direction::North, DoorState::Closed, c, e),
            old(self).grid.spec_neighbor(ix, Direction::North) is None ==> *final(self) == *old(self),
    {
        self.set_door(ix, Direction::North, DoorState::Closed);
    }

    /// Sets the east door of `ix`, and its other side, to `Closed`.
    pub fn close_east(&mut self, ix: Coord)
        requires
            old(self).wf(),
        ensures
            final(self).wf(),
            old(self).same_frame(*final(self)),
            forall|c: Coord, e: Direction|
                old(self).grid.spec_contains(c) ==> #[trigger] final(self).door(c, e)
                    == old(self).door_after(ix, Direction::East, DoorState::Closed, c, e),
            old(self).grid.spec_neighbor(ix, Direction::East) is None ==> *final(self) == *old(self),
    {
        self.set_door(ix, Direction::East, DoorState::Closed);
    }

    /// Sets the south door of `ix`, and its other side, to `Closed`.
    pub fn close_south(&mut self, ix: Coord)
        requires
            old(self).wf(),
        ensures
            final(self).wf(),
            old(self).same_frame(*final(self)),
            forall|c: Coord, e: Direction|
                old(self).grid.spec_contains(c) ==> #[trigger] final(self).door(c, e)
                    == old(self).door_after(ix, Direction::South, DoorState::Closed, c, e),
            old(self).grid.spec_neighbor(ix, Direction::South) is None ==> *final(self) == *old(self),
    {
        self.set_door(ix, Direction::South, DoorState::Closed);
    }

    /// Sets the west door of `ix`, and its other side, to `Closed`.
    pub fn close_west(&mut self, ix: Coord)
        requires
            old(self).wf(),
        ensures
            final(self).wf(),
            old(self).same_frame(*final(self)),
            forall|c: Coord, e: Direction|
                old(self).grid.spec_contains(c) ==> #[trigger] final(self).door(c, e)
                    == old(self).door_after(ix, Direction::West, DoorState::Closed, c, e),
            old(self).grid.spec_neighbor(ix, Direction::West) is None ==> *final(self) == *old(self),
    {
        self.set_door(ix, Direction::West, DoorState::Closed);
    }

    /// Steps the player through the door facing `d` if it is open; returns
    /// whether the player moved.
    pub fn move_toward(&mut self, d: Direction) -> (r: bool)
        requires
            old(self).wf(),
        ensures
            final(self).wf(),
            final(self).grid == old(self).grid,
            final(self).rooms == old(self).rooms,
            final(self).goal == old(self).goal,
            r == (old(self).door(old(self).current_ix, d) == Some(DoorState::Open)),
            r ==> Some(final(self).current_ix) == old(self).grid.spec_neighbor(
                old(self).current_ix,
                d,
            ),
            !r ==> final(self).current_ix == old(self).current_ix,
    {
        let i = self.grid.flat_index(self.current_ix);
        match self.rooms[i].doors.get(d) {
            Some(DoorState::Open) => {
                match self.grid.neighbor(self.current_ix, d) {
                    Some(n) => {
                        let ghost prev = *self;
                        self.current_ix = n;
                        proof {
                            assert forall|c: Coord, e: Direction| #[trigger] self.door(c, e)
                                == prev.door(c, e) by {}
                            assert(self.boundary_ok());
                            assert(self.symmetric());
                        }
                        true
                    },
                    None => {
                        proof {
                            assert(self.door(self.current_ix, d) is Some);
                        }
                        false
                    },
                }
            },
            _ => false,
        }
    }

    /// Moves the player north through an open door; returns whether they moved.
    pub fn move_north(&mut self) -> (r: bool)
        requires
            old(self).wf(),
        ensures
            final(self).wf(),
            final(self).grid == old(self).grid,
            final(self).rooms == old(self).rooms,
            final(self).goal == old(self).goal,
            r == (old(self).door(old(self).current_ix, Direction::North) == Some(DoorState::Open)),
            r ==> Some(final(self).current_ix) == old(self).grid.spec_neighbor(
                old(self).current_ix,
                Direction::North,
            ),
            !r ==> final(self).current_ix == old(self).current_ix,
    {
        self.move_toward(Direction::North)
    }

    /// Moves the player south through an open door; returns whether they moved.
    pub fn move_south(&mut self) -> (r: bool)
        requires
            old(self).wf(),
        ensures
            final(self).wf(),
            final(self).grid == old(self).grid,
            final(self).rooms == old(self).rooms,
            final(self).goal == old(self).goal,
            r == (old(self).door(old(self).current_ix, Direction::South) == Some(DoorState::Open)),
            r ==> Some(final(self).current_ix) == old(self).grid.spec_neighbor(
                old(self).current_ix,
                Direction::South,
            ),
            !r ==> final(self).current_ix == old(self).current_ix,
    {
        self.move_toward(Direction::South)
    }

    /// Moves the player east through an open door; returns whether they moved.
    pub fn move_east(&mut self) -> (r: bool)
        requires
            old(self).wf(),
        ensures
            final(self).wf(),
            final(self).grid == old(self).grid,
            final(self).rooms == old(self).rooms,
            final(self).goal == old(self).goal,
            r == (old(self).door(old(self).current_ix, Direction::East) == Some(DoorState::Open)),
            r ==> Some(final(self).current_ix) == old(self).grid.spec_neighbor(
                old(self).current_ix,
                Direction::East,
            ),
            !r ==> final(self).current_ix == old(self).current_ix,
    {
        self.move_toward(Direction::East)
    }

    /// Moves the player west through an open door; returns whether they moved.
    pub fn move_west(&mut self) -> (r: bool)
        requires
            old(self).wf(),
        ensures
            final(self).wf(),
            final(self).grid == old(self).grid,
            final(self).rooms == old(self).rooms,
            final(self).goal == old(self).goal,
            r == (old(self).door(old(self).current_ix, Direction::West) == Some(DoorState::Open)),
            r ==> Some(final(self).current_ix) == old(self).grid.spec_neighbor(
                old(self).current_ix,
                Direction::West,
            ),
            !r ==> final(self).current_ix == old(self).current_ix,
    {
        self.move_toward(Direction::West)
    }

    /// Whether the player stands in the goal room.
    pub fn is_done(&self) -> (r: bool)
        ensures
            r == (self.current_ix == self.goal),
    {
        self.current_ix == self.goal
    }
}

/// Setting a door on both of its sides keeps the maze well formed.
proof fn lemma_set_door_keeps_wf(prev: Maze, next: Maze, ix: Coord, d: Direction, to: DoorState)
    requires
        prev.wf(),
        prev.same_frame(next),
        forall|c: Coord, e: Direction|
            prev.grid.spec_contains(c) ==> #[trigger] next.door(c, e) == prev.door_after(
                ix,
                d,
                to,
                c,
                e,
            ),
    ensures
        next.wf(),
{
    let g = prev.grid;
    assert forall|c: Coord, e: Direction| g.spec_contains(c) implies ((#[trigger] next.door(
        c,
        e,
    )) is None <==> g.spec_neighbor(c, e) is None) by {
        assert(prev.door(c, e) is None <==> g.spec_neighbor(c, e) is None);
    }
    assert forall|c: Coord, e: Direction|
        g.spec_contains(c) && g.spec_neighbor(c, e) is Some implies next.door(
            g.spec_neighbor(c, e).unwrap(),
            e.spec_opposite(),
        ) == #[trigger] next.door(c, e) by {
        let n = g.spec_neighbor(c, e).unwrap();
        lemma_neighbor_back(g, c, e);
        lemma_neighbor_back(g, ix, d);
        assert(prev.door(n, e.spec_opposite()) == prev.door(c, e));
        assert(next.door(n, e.spec_opposite()) == prev.door_after(ix, d, to, n, e.spec_opposite()));
        if g.spec_neighbor(ix, d) is Some {
            let m = g.spec_neighbor(ix, d).unwrap();
            lemma_neighbor_back(g, m, d.spec_opposite());
        }
    }
}

fn closed_if(b: bool) -> (r: Option<DoorState>)
    ensures
        r == (if b {
            Some(DoorState::Closed)
        } else {
            None
        }),
{
    if b {
        Some(DoorState::Closed)
    } else {
        None
    }
}

} // verus!
