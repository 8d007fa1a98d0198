use game_of_life::{Cell, Universe};

fn glider(u: &mut Universe) {
    u.set_cell(0, 1);
    u.set_cell(1, 2);
    u.set_cell(2, 0);
    u.set_cell(2, 1);
    u.set_cell(2, 2);
}

#[test]
fn tick_is_deterministic() {
    let mut a = Universe::new(6, 6);
    let mut b = Universe::new(6, 6);
    glider(&mut a);
    glider(&mut b);
    for _ in 0..4 {
        a.tick();
        b.tick();
        for r in 0..6 {
            for c in 0..6 {
                assert_eq!(a.get(r, c), b.get(r, c));
            }
        }
    }
}

#[test]
fn dimensions_survive_every_operation() {
    let mut u = Universe::new(4, 3);
    u.set_cell(0, 0);
    u.clear_cell(0, 0);
    u.toggle_cell(2, 3);
    u.tick();
    u.random();
    u.clear();
    assert_eq!(4, u.width());
    assert_eq!(3, u.height());
}

#[test]
fn clear_kills_everything() {
    let mut u = Universe::new(5, 4);
    glider(&mut u);
    u.clear();
    for r in 0..4 {
        for c in 0..5 {
            assert_eq!(Cell::Dead, u.get(r, c));
        }
    }
    for byte in u.cells() {
        assert_eq!(0, *byte);
    }
}

#[test]
fn clear_twice_equals_clear_once() {
    let mut once = Universe::new(5, 4);
    glider(&mut once);
    let mut twice = Universe::new(5, 4);
    glider(&mut twice);
    once.clear();
    twice.clear();
    twice.clear();
    assert_eq!(once.cells(), twice.cells());
    for r in 0..4 {
        for c in 0..5 {
            assert_eq!(once.get(r, c), twice.get(r, c));
        }
    }
}

#[test]
fn toggle_twice_restores_the_state() {
    let mut u = Universe::new(6, 6);
    glider(&mut u);
    let before: Vec<Cell> = (0..6).flat_map(|r| (0..6).map(move |c| (r, c))).map(
        |(r, c)| u.get(r, c),
    ).collect();
    u.toggle_cell(2, 1);
    u.toggle_cell(2, 1);
    u.toggle_cell(4, 5);
    u.toggle_cell(4, 5);
    let after: Vec<Cell> = (0..6).flat_map(|r| (0..6).map(move |c| (r, c))).map(
        |(r, c)| u.get(r, c),
    ).collect();
    assert_eq!(before, after);
}

#[test]
fn toggle_flips_exactly_one_cell() {
    let mut u = Universe::new(3, 3);
    u.toggle_cell(1, 2);
    for r in 0..3 {
        for c in 0..3 {
            let expected = if r == 1 && c == 2 { Cell::Alive } else { Cell::Dead };
            assert_eq!(expected, u.get(r, c));
        }
    }
    u.toggle_cell(1, 2);
    assert_eq!(Cell::Dead, u.get(1, 2));
}

#[test]
fn set_and_clear_single_cells() {
    let mut u = Universe::new(4, 4);
    u.set_cell(3, 0);
    assert_eq!(Cell::Alive, u.get(3, 0));
    assert_eq!(Cell::Dead, u.get(0, 3));
    u.clear_cell(3, 0);
    assert_eq!(Cell::Dead, u.get(3, 0));
}

#[test]
fn new_starts_all_dead() {
    let u = Universe::new(7, 5);
    assert_eq!(7, u.width());
    assert_eq!(5, u.height());
    for r in 0..5 {
        for c in 0..7 {
            assert_eq!(Cell::Dead, u.get(r, c));
        }
    }
}

#[test]
fn example_matches_the_seed_formula() {
    let u = Universe::example();
    assert_eq!(64, u.width());
    assert_eq!(64, u.height());
    for r in 0..64u32 {
        for c in 0..64u32 {
            let i = r * 64 + c;
            let expected = if i % 2 == 0 || i % 7 == 0 { Cell::Alive } else { Cell::Dead };
            assert_eq!(expected, u.get(r, c));
        }
    }
}

#[test]
fn random_constructors_keep_dimensions() {
    let u = Universe::new_random(6, 9);
    assert_eq!(6, u.width());
    assert_eq!(9, u.height());
    let mut v = Universe::new(2, 2);
    v.random();
    assert_eq!(2, v.width());
    assert_eq!(2, v.height());
    for r in 0..2 {
        for c in 0..2 {
            // Whatever was drawn, every cell holds one of the two states.
            let cell = v.get(r, c);
            assert!(cell == Cell::Alive || cell == Cell::Dead);
        }
    }
}
