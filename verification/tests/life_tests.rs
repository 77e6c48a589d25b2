use life::board::Board;
use life::life::{neighbours, next_state, Life, TileState};

fn make(w: i32, h: i32, alive: &[(i32, i32)]) -> Life {
    let b = Board::new(w, h).unwrap();
    let mut l = Life::new(b);
    for &(x, y) in alive {
        let idx = (y * w + x) as usize;
        l.tiles[idx].state = TileState::Alive;
        l.tiles[idx].next_state = TileState::Alive;
    }
    l
}

fn tick(l: &mut Life) {
    l.rules();
    l.update_tiles();
}

fn state_at(l: &Life, x: i32, y: i32) -> TileState {
    l.tiles[(y * l.board.width + x) as usize].state
}

#[test]
fn rule_table_all_cases() {
    for k in 0..9usize {
        let expect_from_alive = if k == 2 || k == 3 { TileState::Alive } else { TileState::Dead };
        assert_eq!(next_state(TileState::Alive, k), expect_from_alive);
        let expect_from_dead = if k == 3 { TileState::Alive } else { TileState::Dead };
        assert_eq!(next_state(TileState::Dead, k), expect_from_dead);
    }
}

#[test]
fn interior_cell_has_eight_distinct_in_grid_neighbours() {
    let b = Board::new(3, 3).unwrap();
    let n = neighbours(&b, 4);
    assert_eq!(n, [0, 1, 2, 3, 5, 6, 7, 8]);
}

#[test]
fn corner_cell_neighbours_resolve_to_sentinel() {
    let b = Board::new(3, 3).unwrap();
    let n = neighbours(&b, 0);
    assert_eq!(n, [9, 9, 9, 9, 1, 9, 3, 4]);
}

#[test]
fn edge_cell_neighbours_resolve_to_sentinel() {
    let b = Board::new(3, 3).unwrap();
    let n = neighbours(&b, 1);
    assert_eq!(n, [9, 9, 9, 0, 2, 3, 4, 5]);
}

#[test]
fn sentinel_stays_dead_through_ticks() {
    let mut l = make(3, 3, &[(0, 0), (1, 0), (2, 0), (0, 1)]);
    for _ in 0..3 {
        tick(&mut l);
        assert_eq!(l.tiles[9].state, TileState::Dead);
        assert_eq!(l.tiles[9].next_state, TileState::Dead);
    }
}

#[test]
fn lone_center_dies_and_rest_stay_dead() {
    let mut l = make(3, 3, &[(1, 1)]);
    tick(&mut l);
    for y in 0..3 {
        for x in 0..3 {
            assert_eq!(state_at(&l, x, y), TileState::Dead);
        }
    }
}

#[test]
fn all_alive_4x4_one_tick() {
    let all: Vec<(i32, i32)> = (0..4).flat_map(|y| (0..4).map(move |x| (x, y))).collect();
    let mut l = make(4, 4, &all);
    tick(&mut l);
    for y in 0..4 {
        for x in 0..4 {
            let corner = (x == 0 || x == 3) && (y == 0 || y == 3);
            let expected = if corner { TileState::Alive } else { TileState::Dead };
            assert_eq!(state_at(&l, x, y), expected, "cell ({}, {})", x, y);
        }
    }
}

#[test]
fn glider_translates_diagonally_after_four_ticks() {
    let start = [(2, 1), (3, 2), (1, 3), (2, 3), (3, 3)];
    let mut l = make(8, 8, &start);
    for _ in 0..4 {
        tick(&mut l);
    }
    let expected: Vec<(i32, i32)> = start.iter().map(|&(x, y)| (x + 1, y + 1)).collect();
    for y in 0..8 {
        for x in 0..8 {
            let want = if expected.contains(&(x, y)) { TileState::Alive } else { TileState::Dead };
            assert_eq!(state_at(&l, x, y), want, "cell ({}, {})", x, y);
        }
    }
}

#[test]
fn seeded_init_is_deterministic() {
    let b = Board::new(8, 8).unwrap();
    let mut l1 = Life::new(b);
    let mut l2 = Life::new(b);
    l1.init_seeded(42);
    l2.init_seeded(42);
    for i in 0..64 {
        assert_eq!(l1.tiles[i].state, l2.tiles[i].state);
        assert_eq!(l1.tiles[i].next_state, l1.tiles[i].state);
    }
}

#[test]
fn seeded_init_mixes_states() {
    let b = Board::new(8, 8).unwrap();
    let mut l = Life::new(b);
    l.init_seeded(7);
    let alive = l.tiles[..64].iter().filter(|t| t.state == TileState::Alive).count();
    assert!(alive > 0, "some cell should be alive");
    assert!(alive < 64, "some cell should be dead");
    assert_eq!(l.tiles[64].state, TileState::Dead);
}

#[test]
fn same_start_same_tick_outcome() {
    let b = Board::new(8, 8).unwrap();
    let mut l1 = Life::new(b);
    let mut l2 = Life::new(b);
    l1.init_seeded(1234);
    l2.init_seeded(1234);
    tick(&mut l1);
    tick(&mut l2);
    for i in 0..64 {
        assert_eq!(l1.tiles[i].state, l2.tiles[i].state);
    }
}

#[test]
fn random_init_keeps_invariants() {
    let b = Board::new(5, 4).unwrap();
    let mut l = Life::new(b);
    l.init_random();
    for i in 0..20 {
        assert_eq!(l.tiles[i].next_state, l.tiles[i].state);
    }
    assert_eq!(l.tiles[20].state, TileState::Dead);
    tick(&mut l);
    assert_eq!(l.tiles[20].state, TileState::Dead);
}

#[test]
fn blinker_oscillates() {
    let mut l = make(5, 5, &[(1, 2), (2, 2), (3, 2)]);
    tick(&mut l);
    for y in 0..5 {
        for x in 0..5 {
            let want = if x == 2 && (y == 1 || y == 2 || y == 3) {
                TileState::Alive
            } else {
                TileState::Dead
            };
            assert_eq!(state_at(&l, x, y), want, "cell ({}, {})", x, y);
        }
    }
    tick(&mut l);
    for y in 0..5 {
        for x in 0..5 {
            let want = if y == 2 && (x == 1 || x == 2 || x == 3) {
                TileState::Alive
            } else {
                TileState::Dead
            };
            assert_eq!(state_at(&l, x, y), want, "cell ({}, {})", x, y);
        }
    }
}
