use rand::rngs::StdRng;
use rand::SeedableRng;
use samazing::grid::Coord;
use samazing::maze::{DoorState, Doors, Maze};
use samazing::movement::random_step;
use samazing::seeders::{seed_doors_naive, seed_doors_path};
use samazing::Direction;
use std::collections::{BTreeSet, VecDeque};

const ALL: [Direction; 4] = [Direction::North, Direction::East, Direction::South, Direction::West];

fn all_doors(m: &Maze) -> Vec<Doors> {
    m.rooms.iter().map(|r| r.doors).collect()
}

/// Breadth-first search over open doors; the path of directions from `from` to `to`.
fn open_route(m: &Maze, from: Coord, to: Coord) -> Option<Vec<Direction>> {
    let mut prev: std::collections::BTreeMap<Coord, (Coord, Direction)> = Default::default();
    let mut seen: BTreeSet<Coord> = BTreeSet::new();
    let mut queue: VecDeque<Coord> = VecDeque::new();
    seen.insert(from);
    queue.push_back(from);
    while let Some(c) = queue.pop_front() {
        if c == to {
            let mut route = Vec::new();
            let mut at = c;
            while at != from {
                let (p, d) = prev[&at];
                route.push(d);
                at = p;
            }
            route.reverse();
            return Some(route);
        }
        for d in ALL {
            if m.door_state(c, d) == Some(DoorState::Open) {
                let n = m.grid.neighbor(c, d).unwrap();
                if seen.insert(n) {
                    prev.insert(n, (c, d));
                    queue.push_back(n);
                }
            }
        }
    }
    None
}

fn check_invariants(m: &Maze) {
    for c in m.grid.indices() {
        for d in ALL {
            let slot = m.door_state(c, d);
            match m.grid.neighbor(c, d) {
                None => assert_eq!(slot, None, "edge slot of {c:?} toward {d:?}"),
                Some(n) => {
                    assert!(slot.is_some(), "inner slot of {c:?} toward {d:?}");
                    assert_eq!(m.door_state(n, d.opposite()), slot, "mirror of {c:?} toward {d:?}");
                }
            }
        }
    }
}

fn step(m: &mut Maze, d: Direction) -> bool {
    match d {
        Direction::North => m.move_north(),
        Direction::South => m.move_south(),
        Direction::East => m.move_east(),
        Direction::West => m.move_west(),
    }
}

#[test]
fn path_seeding_keeps_symmetry_and_boundary() {
    for seed in 0..20u64 {
        let mut rng = StdRng::seed_from_u64(seed);
        let mut m = Maze::new(5, 4);
        seed_doors_path(&mut m, &mut rng);
        check_invariants(&m);
    }
}

#[test]
fn naive_seeding_keeps_symmetry_and_boundary() {
    for seed in 0..20u64 {
        let mut rng = StdRng::seed_from_u64(seed);
        let mut m = Maze::new(4, 5);
        seed_doors_naive(&mut m, &mut rng);
        check_invariants(&m);
    }
}

#[test]
fn path_seeding_reaches_goal_for_every_seed() {
    for (rows, cols) in [(1usize, 1usize), (1, 5), (5, 1), (3, 3), (7, 7), (4, 6)] {
        for seed in 0..25u64 {
            let mut rng = StdRng::seed_from_u64(seed);
            let mut m = Maze::new(rows, cols);
            seed_doors_path(&mut m, &mut rng);
            assert!(
                open_route(&m, m.current_ix, m.goal).is_some(),
                "{rows}x{cols} seed {seed}"
            );
        }
    }
}

#[test]
fn path_seeding_opens_doors() {
    let mut rng = StdRng::seed_from_u64(3);
    let mut m = Maze::new(3, 3);
    seed_doors_path(&mut m, &mut rng);
    assert!(m.rooms.iter().all(|r| r.doors.any_open()));
}

#[test]
fn path_seeding_is_deterministic_for_a_seed() {
    for seed in [0u64, 7, 12345] {
        let mut a = Maze::new(6, 6);
        let mut b = Maze::new(6, 6);
        seed_doors_path(&mut a, &mut StdRng::seed_from_u64(seed));
        seed_doors_path(&mut b, &mut StdRng::seed_from_u64(seed));
        assert_eq!(all_doors(&a), all_doors(&b));
    }
}

#[test]
fn naive_seeding_leaves_no_room_sealed() {
    for seed in 0..30u64 {
        let mut rng = StdRng::seed_from_u64(seed);
        let mut m = Maze::new(3, 3);
        seed_doors_naive(&mut m, &mut rng);
        for r in &m.rooms {
            assert!(r.doors.any_open());
        }
        let s = m.room(m.grid.min()).doors;
        assert!(s.east == Some(DoorState::Open) || s.south == Some(DoorState::Open));
        let g = m.room(m.grid.max()).doors;
        assert!(g.west == Some(DoorState::Open) || g.north == Some(DoorState::Open));
    }
}

#[test]
fn naive_seeding_only_opens() {
    let mut rng = StdRng::seed_from_u64(9);
    let mut m = Maze::new(3, 3);
    seed_doors_naive(&mut m, &mut rng);
    let first = all_doors(&m);
    seed_doors_naive(&mut m, &mut rng);
    for (a, b) in first.iter().zip(all_doors(&m).iter()) {
        for d in ALL {
            if a.get(d) == Some(DoorState::Open) {
                assert_eq!(b.get(d), Some(DoorState::Open));
            }
        }
    }
}

#[test]
fn end_to_end_three_by_three() {
    let mut rng = StdRng::seed_from_u64(2024);
    let mut m = Maze::new(3, 3);
    assert_eq!(m.current_ix, Coord { row: 0, col: 0 });
    assert_eq!(m.goal, Coord { row: 2, col: 2 });
    seed_doors_path(&mut m, &mut rng);
    let route = open_route(&m, m.current_ix, m.goal).expect("goal reachable");
    assert!(!route.is_empty());
    for (k, d) in route.iter().enumerate() {
        assert!(!m.is_done());
        assert!(step(&mut m, *d), "step {k}");
    }
    assert!(m.is_done());
    assert_eq!(m.current_ix, Coord { row: 2, col: 2 });
}

#[test]
fn random_step_moves_through_an_open_door() {
    let mut rng = StdRng::seed_from_u64(5);
    let mut m = Maze::new(3, 3);
    m.open_south(m.coord(0, 0).unwrap());
    random_step(&mut m, &mut rng);
    assert_eq!(m.current_ix, Coord { row: 1, col: 0 });
}

#[test]
fn random_step_stays_in_a_sealed_room() {
    let mut rng = StdRng::seed_from_u64(5);
    let mut m = Maze::new(3, 3);
    random_step(&mut m, &mut rng);
    assert_eq!(m.current_ix, Coord { row: 0, col: 0 });
}

#[test]
fn generators_keep_room_descriptions() {
    let fresh = Maze::new(4, 4);
    let labels: Vec<String> = fresh.rooms.iter().map(|r| r.description.clone()).collect();
    let mut a = Maze::new(4, 4);
    seed_doors_path(&mut a, &mut StdRng::seed_from_u64(11));
    let mut b = Maze::new(4, 4);
    seed_doors_naive(&mut b, &mut StdRng::seed_from_u64(11));
    for m in [&a, &b] {
        let now: Vec<String> = m.rooms.iter().map(|r| r.description.clone()).collect();
        assert_eq!(now, labels);
    }
}

#[test]
fn path_seeding_a_single_room_changes_nothing() {
    let mut m = Maze::new(1, 1);
    seed_doors_path(&mut m, &mut StdRng::seed_from_u64(1));
    assert_eq!(all_doors(&m), all_doors(&Maze::new(1, 1)));
    assert!(m.is_done());
}
