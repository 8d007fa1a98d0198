use game_of_life::{Cell, Universe};

#[test]
fn alive_with_one_neighbor_dies() {
    let mut u = Universe::new(5, 5);
    u.set_cell(2, 2);
    u.set_cell(2, 3);
    u.tick();
    assert_eq!(Cell::Dead, u.get(2, 2));
    assert_eq!(Cell::Dead, u.get(2, 3));
}

#[test]
fn blinker_survival_birth_and_stasis() {
    // Horizontal blinker on a 5x5 grid: the middle cell has two live
    // neighbors and survives, the two ends die, the cells above and below
    // the middle have exactly three live neighbors and are born, and dead
    // cells with any other count stay dead.
    let mut u = Universe::new(5, 5);
    u.set_cell(2, 1);
    u.set_cell(2, 2);
    u.set_cell(2, 3);
    u.tick();
    for r in 0..5 {
        for c in 0..5 {
            let expect_alive = (r == 1 && c == 2) || (r == 2 && c == 2) || (r == 3 && c == 2);
            let expected = if expect_alive { Cell::Alive } else { Cell::Dead };
            assert_eq!(expected, u.get(r, c));
        }
    }
}

#[test]
fn block_with_three_neighbors_survives() {
    // A 2x2 block: every live cell has exactly three live neighbors and
    // survives; no dead cell reaches three, so nothing is born.
    let mut u = Universe::new(5, 5);
    u.set_cell(1, 1);
    u.set_cell(1, 2);
    u.set_cell(2, 1);
    u.set_cell(2, 2);
    u.tick();
    for r in 0..5 {
        for c in 0..5 {
            let expect_alive = (1..=2).contains(&r) && (1..=2).contains(&c);
            let expected = if expect_alive { Cell::Alive } else { Cell::Dead };
            assert_eq!(expected, u.get(r, c));
        }
    }
}

#[test]
fn alive_with_four_neighbors_dies() {
    // Plus shape on a 5x5 grid: the center has four live neighbors.
    let mut u = Universe::new(5, 5);
    u.set_cell(1, 2);
    u.set_cell(2, 1);
    u.set_cell(2, 2);
    u.set_cell(2, 3);
    u.set_cell(3, 2);
    u.tick();
    assert_eq!(Cell::Dead, u.get(2, 2));
}

#[test]
fn plus_on_three_by_three_torus_dies_out() {
    // On a 3x3 torus every cell is adjacent to all eight others, so with
    // five live cells every live cell counts four neighbors (itself
    // excluded) and dies, and every dead cell counts five and stays dead.
    let mut u = Universe::new(3, 3);
    u.set_cell(1, 1);
    u.set_cell(0, 1);
    u.set_cell(1, 0);
    u.set_cell(1, 2);
    u.set_cell(2, 1);
    // Hand-checked counts before the tick.
    for r in 0..3 {
        for c in 0..3 {
            let alive = u.get(r, c) == Cell::Alive;
            let expected_count = if alive { 4 } else { 5 };
            assert_eq!(expected_count, u.live_neighbor_count(r, c));
        }
    }
    u.tick();
    for r in 0..3 {
        for c in 0..3 {
            assert_eq!(Cell::Dead, u.get(r, c));
        }
    }
}
