use samazing::grid::{Coord, Grid};
use samazing::{directions_where, Direction, DirectionsIter};

#[test]
fn grid_new_rejects_empty_and_oversized() {
    assert!(Grid::new(0, 3).is_none());
    assert!(Grid::new(3, 0).is_none());
    assert!(Grid::new(usize::MAX, 2).is_none());
    assert_eq!(Grid::new(2, 3), Some(Grid { n_rows: 2, n_cols: 3 }));
}

#[test]
fn neighbors_at_edges() {
    let g = Grid::new(2, 3).unwrap();
    let c = g.ix(0, 0).unwrap();
    assert_eq!(g.neighbor(c, Direction::North), None);
    assert_eq!(g.neighbor(c, Direction::West), None);
    assert_eq!(g.neighbor(c, Direction::East), Some(Coord { row: 0, col: 1 }));
    assert_eq!(g.neighbor(c, Direction::South), Some(Coord { row: 1, col: 0 }));
    let m = g.max();
    assert_eq!(m, Coord { row: 1, col: 2 });
    assert_eq!(g.neighbor(m, Direction::South), None);
    assert_eq!(g.neighbor(m, Direction::East), None);
    assert_eq!(g.neighbor(m, Direction::North), Some(Coord { row: 0, col: 2 }));
    assert_eq!(g.neighbor(m, Direction::West), Some(Coord { row: 1, col: 1 }));
    assert_eq!(g.neighbor(Coord { row: 7, col: 0 }, Direction::North), None);
    assert_eq!(g.min(), Coord { row: 0, col: 0 });
    assert!(g.ix(2, 0).is_none());
    assert!(g.ix(0, 3).is_none());
    assert!(g.contains(Coord { row: 1, col: 2 }));
    assert!(!g.contains(Coord { row: 1, col: 3 }));
}

#[test]
fn indices_are_row_major() {
    let g = Grid::new(2, 3).unwrap();
    let ix = g.indices();
    let expect: Vec<Coord> = vec![
        Coord { row: 0, col: 0 },
        Coord { row: 0, col: 1 },
        Coord { row: 0, col: 2 },
        Coord { row: 1, col: 0 },
        Coord { row: 1, col: 1 },
        Coord { row: 1, col: 2 },
    ];
    assert_eq!(ix, expect);
    for (k, c) in ix.iter().enumerate() {
        assert_eq!(g.flat_index(*c), k);
    }
    let mut sorted = ix.clone();
    sorted.sort();
    assert_eq!(sorted, ix);
}

#[test]
fn directions_iterate_clockwise() {
    let mut it = DirectionsIter::new();
    assert_eq!(it.next(), Some(Direction::North));
    assert_eq!(it.next(), Some(Direction::East));
    assert_eq!(it.next(), Some(Direction::South));
    assert_eq!(it.next(), Some(Direction::West));
    assert_eq!(it.next(), None);
    let mut it2 = Direction::South.into_iter();
    assert_eq!(it2.next(), Some(Direction::North));
}

#[test]
fn opposite_directions() {
    assert_eq!(Direction::North.opposite(), Direction::South);
    assert_eq!(Direction::South.opposite(), Direction::North);
    assert_eq!(Direction::East.opposite(), Direction::West);
    assert_eq!(Direction::West.opposite(), Direction::East);
}

#[test]
fn flagged_directions_keep_clockwise_order() {
    assert_eq!(directions_where(true, false, true, true), vec![Direction::North, Direction::South, Direction::West]);
    assert!(directions_where(false, false, false, false).is_empty());
}
