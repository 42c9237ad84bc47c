use samazing::grid::Coord;
use samazing::maze::{DoorState, Doors, Maze};
use samazing::Direction;

fn doors_of(m: &Maze, row: usize, col: usize) -> Doors {
    m.room(m.coord(row, col).unwrap()).doors
}

#[test]
fn test_new() {
    let m = Maze::new(3, 3);
    assert_eq!(
        Doors {
            north: None,
            east: Some(DoorState::Closed),
            south: Some(DoorState::Closed),
            west: None,
        },
        doors_of(&m, 0, 0),
        "0, 0"
    );
    assert_eq!(
        Doors {
            north: None,
            east: Some(DoorState::Closed),
            south: Some(DoorState::Closed),
            west: Some(DoorState::Closed),
        },
        doors_of(&m, 0, 1),
        "0, 1"
    );
    assert_eq!(
        Doors {
            north: None,
            east: None,
            south: Some(DoorState::Closed),
            west: Some(DoorState::Closed),
        },
        doors_of(&m, 0, 2),
        "0, 2"
    );
    assert_eq!(
        Doors {
            north: Some(DoorState::Closed),
            east: Some(DoorState::Closed),
            south: Some(DoorState::Closed),
            west: None,
        },
        doors_of(&m, 1, 0),
        "1, 0"
    );
    assert_eq!(
        Doors {
            north: Some(DoorState::Closed),
            east: Some(DoorState::Closed),
            south: Some(DoorState::Closed),
            west: Some(DoorState::Closed),
        },
        doors_of(&m, 1, 1),
        "1, 1"
    );
    assert_eq!(
        Doors {
            north: Some(DoorState::Closed),
            east: None,
            south: Some(DoorState::Closed),
            west: Some(DoorState::Closed),
        },
        doors_of(&m, 1, 2),
        "1, 2"
    );
    assert_eq!(
        Doors {
            north: Some(DoorState::Closed),
            east: Some(DoorState::Closed),
            south: None,
            west: None,
        },
        doors_of(&m, 2, 0),
        "2,0"
    );
    assert_eq!(
        Doors {
            north: Some(DoorState::Closed),
            east: Some(DoorState::Closed),
            south: None,
            west: Some(DoorState::Closed),
        },
        doors_of(&m, 2, 1),
        "2,1"
    );
    assert_eq!(
        Doors {
            north: Some(DoorState::Closed),
            east: None,
            south: None,
            west: Some(DoorState::Closed),
        },
        doors_of(&m, 2, 2),
        "2,2"
    );
}

#[test]
fn test_open_east() {
    let mut m = Maze::new(3, 3);
    let ix = m.coord(0, 0).unwrap();
    m.open_east(ix);
    assert_eq!(Some(DoorState::Open), m.room(ix).doors.east, "opened room");
    let ix2 = m.coord(0, 1).unwrap();
    assert_eq!(Some(DoorState::Open), m.room(ix2).doors.west, "neighbor");
}

#[test]
fn test_open_west() {
    let mut m = Maze::new(3, 3);
    let ix = m.coord(0, 1).unwrap();
    m.open_west(ix);
    assert_eq!(Some(DoorState::Open), m.room(ix).doors.west, "opened room");
    let ix2 = m.coord(0, 0).unwrap();
    assert_eq!(Some(DoorState::Open), m.room(ix2).doors.east, "neighbor");
}

#[test]
fn new_maze_start_and_goal() {
    let m = Maze::new(4, 6);
    assert_eq!(m.current_ix, Coord { row: 0, col: 0 });
    assert_eq!(m.goal, Coord { row: 3, col: 5 });
    assert!(!m.is_done());
    assert_eq!(m.rooms.len(), 24);
    assert_eq!(m.room(m.coord(2, 3).unwrap()).description, "room Coord { row: 2, col: 3 }");
}

#[test]
fn one_room_maze_is_solved_at_once() {
    let m = Maze::new(1, 1);
    assert!(m.is_done());
    assert_eq!(
        doors_of(&m, 0, 0),
        Doors { north: None, east: None, south: None, west: None }
    );
}

#[test]
fn boundary_door_cannot_be_opened() {
    let mut m = Maze::new(2, 2);
    let ix = m.coord(0, 0).unwrap();
    m.open_north(ix);
    m.open_west(ix);
    assert_eq!(doors_of(&m, 0, 0).north, None);
    assert_eq!(doors_of(&m, 0, 0).west, None);
    m.close_north(ix);
    assert_eq!(doors_of(&m, 0, 0).north, None);
}

#[test]
fn off_grid_coordinate_changes_nothing() {
    let mut m = Maze::new(2, 2);
    let before: Vec<Doors> = m.rooms.iter().map(|r| r.doors).collect();
    m.open_south(Coord { row: 5, col: 0 });
    m.set_door(Coord { row: 0, col: 9 }, Direction::West, DoorState::Open);
    let after: Vec<Doors> = m.rooms.iter().map(|r| r.doors).collect();
    assert_eq!(before, after);
}

#[test]
fn close_after_open_restores_both_sides() {
    let mut m = Maze::new(3, 3);
    let ix = m.coord(1, 1).unwrap();
    m.open_south(ix);
    assert_eq!(m.door_state(ix, Direction::South), Some(DoorState::Open));
    assert_eq!(m.door_state(m.coord(2, 1).unwrap(), Direction::North), Some(DoorState::Open));
    m.close_south(ix);
    assert_eq!(m.door_state(ix, Direction::South), Some(DoorState::Closed));
    assert_eq!(m.door_state(m.coord(2, 1).unwrap(), Direction::North), Some(DoorState::Closed));
    m.open_north(m.coord(2, 1).unwrap());
    assert_eq!(m.door_state(ix, Direction::South), Some(DoorState::Open));
    m.close_east(ix);
    m.close_west(ix);
    assert_eq!(m.door_state(m.coord(1, 2).unwrap(), Direction::West), Some(DoorState::Closed));
    assert_eq!(m.door_state(m.coord(1, 0).unwrap(), Direction::East), Some(DoorState::Closed));
}

#[test]
fn move_through_closed_door_fails() {
    let mut m = Maze::new(3, 3);
    assert!(!m.move_east());
    assert!(!m.move_south());
    assert!(!m.move_north());
    assert!(!m.move_west());
    assert_eq!(m.current_ix, Coord { row: 0, col: 0 });
}

#[test]
fn move_through_open_door_succeeds() {
    let mut m = Maze::new(3, 3);
    let start = m.coord(0, 0).unwrap();
    m.open_east(start);
    assert!(m.move_east());
    assert_eq!(m.current_ix, Coord { row: 0, col: 1 });
    assert!(!m.move_south());
    assert!(m.move_west());
    assert_eq!(m.current_ix, Coord { row: 0, col: 0 });
    m.open_south(start);
    assert!(m.move_south());
    assert_eq!(m.current_ix, Coord { row: 1, col: 0 });
    assert!(m.move_north());
    assert_eq!(m.current_ix, Coord { row: 0, col: 0 });
}

#[test]
fn doors_helpers() {
    let mut d = Doors::default();
    assert_eq!(
        d,
        Doors {
            north: Some(DoorState::Closed),
            east: Some(DoorState::Closed),
            south: Some(DoorState::Closed),
            west: Some(DoorState::Closed),
        }
    );
    assert!(!d.any_open());
    assert!(d.any_present());
    d.open_south();
    assert!(d.any_open());
    assert_eq!(d.get(Direction::South), Some(DoorState::Open));
    d.close_south();
    d.open_north();
    d.open_east();
    d.open_west();
    assert_eq!(d.south, Some(DoorState::Closed));
    d.close_north();
    d.close_east();
    d.close_west();
    assert!(!d.any_open());
    let edge = Doors { north: None, east: Some(DoorState::Closed), south: None, west: Some(DoorState::Open) };
    assert_eq!(edge.available_directions(), vec![Direction::East, Direction::West]);
    let mut e = edge;
    e.open_north();
    assert_eq!(e.north, None);
    let none = Doors { north: None, east: None, south: None, west: None };
    assert!(!none.any_present());
    assert!(none.available_directions().is_empty());
}

#[test]
fn edge_door_edits_leave_the_maze_unchanged() {
    let mut m = Maze::new(2, 3);
    let before: Vec<(String, Doors)> = m.rooms.iter().map(|r| (r.description.clone(), r.doors)).collect();
    let corner = m.coord(1, 2).unwrap();
    m.open_east(corner);
    m.open_south(corner);
    m.close_east(corner);
    m.close_south(corner);
    let top = m.coord(0, 1).unwrap();
    m.open_north(top);
    m.close_north(top);
    let left = m.coord(1, 0).unwrap();
    m.open_west(left);
    m.close_west(left);
    let after: Vec<(String, Doors)> = m.rooms.iter().map(|r| (r.description.clone(), r.doors)).collect();
    assert_eq!(before, after);
}
