use samazing::grid::{Coord, Grid};
use samazing::menu::{Game, MenuChoice, MenuState, Outcome};
use samazing::movement::direction_for_draw;
use samazing::seen::SeenSet;
use samazing::Direction;

#[test]
fn seen_set_holds_exactly_the_marked_rooms() {
    let g = Grid::new(3, 3).unwrap();
    let mut s = SeenSet::new();
    for c in g.indices() {
        assert!(!s.is_seen(c));
    }
    let marks = [
        Coord { row: 2, col: 1 },
        Coord { row: 0, col: 0 },
        Coord { row: 2, col: 1 },
        Coord { row: 1, col: 2 },
    ];
    for c in marks {
        s.mark_seen(c);
    }
    for c in g.indices() {
        assert_eq!(s.is_seen(c), marks.contains(&c), "{c:?}");
    }
}

#[test]
fn unseen_walls_follow_seen_neighbours() {
    let g = Grid::new(3, 3).unwrap();
    let mut s = SeenSet::new();
    let corner = Coord { row: 0, col: 0 };
    assert_eq!(
        s.unseen_walls(&g, corner),
        vec![Direction::North, Direction::East, Direction::South, Direction::West]
    );
    s.mark_seen(Coord { row: 0, col: 1 });
    assert_eq!(
        s.unseen_walls(&g, corner),
        vec![Direction::North, Direction::South, Direction::West]
    );
    let middle = Coord { row: 1, col: 1 };
    s.mark_seen(Coord { row: 2, col: 1 });
    assert_eq!(s.unseen_walls(&g, middle), vec![Direction::East, Direction::West]);
}

#[test]
fn menu_choice_from_index() {
    assert_eq!(MenuChoice::from(0), MenuChoice::Game(Game::Basic));
    assert_eq!(MenuChoice::from(1), MenuChoice::Game(Game::Hidden));
    assert_eq!(MenuChoice::from(2), MenuChoice::Game(Game::Lantern));
    assert_eq!(MenuChoice::from(3), MenuChoice::Quit);
    assert_eq!(MenuChoice::from(usize::MAX), MenuChoice::Quit);
}

#[test]
fn menu_state_moves_and_picks() {
    let mut m = MenuState::default();
    assert_eq!(m.selected, Some(0));
    assert_eq!(m.outcome_msg(), "");
    m.select_next();
    m.select_next();
    assert_eq!(m.selected, Some(2));
    m.choose_selected();
    assert_eq!(m.choice, Some(MenuChoice::Game(Game::Lantern)));
    m.unchoose();
    assert_eq!(m.choice, None);
    m.select_previous();
    assert_eq!(m.selected, Some(1));
    m.select_quit();
    m.choose_selected();
    assert_eq!(m.choice, Some(MenuChoice::Quit));
    m.set_selected(None);
    m.select_previous();
    assert_eq!(m.selected, Some(usize::MAX));
    m.set_selected(Some(0));
    m.select_previous();
    assert_eq!(m.selected, Some(0));
    m.game_over(Outcome::Win);
    assert_eq!(m.outcome_msg(), "you won!");
    assert_eq!(m.choice, None);
    assert_eq!(m.selected, Some(0));
    m.game_over(Outcome::Quit);
    assert_eq!(m.outcome_msg(), "you quit");
}

#[test]
fn draws_map_to_directions() {
    assert_eq!(direction_for_draw(0), Direction::North);
    assert_eq!(direction_for_draw(5), Direction::South);
    assert_eq!(direction_for_draw(10), Direction::East);
    assert_eq!(direction_for_draw(255), Direction::West);
}
