use samazing::game::{GameState, MazeEvent};
use samazing::grid::{Coord, Grid};
use samazing::maze::Maze;
use samazing::menu::Outcome;

#[test]
fn around_a_corner_and_the_middle() {
    let g = Grid::new(3, 4).unwrap();
    assert_eq!(
        g.around(Coord { row: 0, col: 0 }),
        vec![
            Coord { row: 0, col: 0 },
            Coord { row: 0, col: 1 },
            Coord { row: 1, col: 0 },
            Coord { row: 1, col: 1 },
        ]
    );
    let mid = g.around(Coord { row: 1, col: 2 });
    assert_eq!(mid.len(), 9);
    assert_eq!(mid[0], Coord { row: 0, col: 1 });
    assert_eq!(mid[8], Coord { row: 2, col: 3 });
    let one = Grid::new(1, 1).unwrap();
    assert_eq!(one.around(Coord { row: 0, col: 0 }), vec![Coord { row: 0, col: 0 }]);
}

#[test]
fn game_moves_and_records_seen_rooms() {
    let mut m = Maze::new(2, 2);
    m.open_east(m.coord(0, 0).unwrap());
    m.open_south(m.coord(0, 1).unwrap());
    let mut st = GameState::new(m);
    assert!(st.is_seen(Coord { row: 0, col: 0 }));
    assert!(!st.is_seen(Coord { row: 0, col: 1 }));
    assert_eq!(st.handle(MazeEvent::MoveS), None);
    assert_eq!(st.maze.current_ix, Coord { row: 0, col: 0 });
    assert_eq!(st.handle(MazeEvent::MoveE), None);
    assert!(st.is_seen(Coord { row: 0, col: 1 }));
    assert!(!st.is_done());
    assert_eq!(st.handle(MazeEvent::Enter), None);
    assert_eq!(st.handle(MazeEvent::MoveS), None);
    assert!(st.is_done());
    assert!(st.is_seen(Coord { row: 1, col: 1 }));
    assert!(!st.is_seen(Coord { row: 1, col: 0 }));
    assert_eq!(st.handle(MazeEvent::Quit), Some(Outcome::Quit));
}
