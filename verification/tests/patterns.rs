use wasm_game_of_life::universe::cell::get_glider_bitmap;
use wasm_game_of_life::universe::cell::Cell;
use wasm_game_of_life::universe::Universe;

fn dead(width: u32, height: u32) -> Universe {
    let mut universe = Universe::new(Some(width), Some(height));
    universe.set_width(width);
    universe
}

fn live_cells(universe: &Universe) -> Vec<(u32, u32)> {
    let mut alive = Vec::new();
    for row in 0..universe.height() {
        for col in 0..universe.width() {
            if universe.get_cells()[universe.get_index(row, col)] == Cell::Alive {
                alive.push((row, col));
            }
        }
    }
    alive
}

#[test]
fn place_glider_marks_its_five_cells() {
    let mut universe = dead(6, 6);
    universe.place_glider(2, 2);
    assert_eq!(live_cells(&universe), vec![(1, 2), (2, 3), (3, 1), (3, 2), (3, 3)]);
}

#[test]
fn place_glider_at_the_smallest_anchor() {
    let mut universe = dead(3, 3);
    universe.place_glider(1, 1);
    assert_eq!(live_cells(&universe), vec![(0, 1), (1, 2), (2, 0), (2, 1), (2, 2)]);
}

#[test]
fn place_glider_in_the_first_row_does_nothing() {
    let mut universe = dead(8, 8);
    universe.place_glider(0, 5);
    assert!(universe.get_cells().iter().all(|cell| *cell == Cell::Dead));
    let mut universe = dead(3, 2);
    universe.place_glider(0, 5);
    assert!(universe.get_cells().iter().all(|cell| *cell == Cell::Dead));
    let mut universe = Universe::new(Some(0), Some(0));
    universe.place_glider(0, 5);
    assert!(universe.get_cells().is_empty());
}

#[test]
fn place_glider_in_the_first_column_does_nothing() {
    let mut universe = dead(8, 8);
    universe.place_glider(4, 0);
    assert!(universe.get_cells().iter().all(|cell| *cell == Cell::Dead));
}

#[test]
fn place_glider_one_past_the_last_row_or_column_does_nothing() {
    let mut universe = dead(8, 6);
    universe.place_glider(6, 3);
    assert!(universe.get_cells().iter().all(|cell| *cell == Cell::Dead));
    universe.place_glider(3, 8);
    assert!(universe.get_cells().iter().all(|cell| *cell == Cell::Dead));
}

#[test]
fn place_glider_turned_away_keeps_what_was_there() {
    let mut universe = Universe::new(Some(8), Some(8));
    let before = universe.get_cells().to_vec();
    universe.place_glider(0, 5);
    assert_eq!(universe.get_cells(), &before[..]);
    universe.place_glider(8, 8);
    assert_eq!(universe.get_cells(), &before[..]);
}

#[test]
fn place_glider_does_not_clear_other_cells() {
    let mut universe = dead(6, 6);
    universe.set_cells(&[(0, 0), (2, 2), (5, 5)]);
    universe.place_glider(2, 2);
    assert_eq!(
        live_cells(&universe),
        vec![(0, 0), (1, 2), (2, 2), (2, 3), (3, 1), (3, 2), (3, 3), (5, 5)]
    );
}

#[test]
fn place_glider_twice_is_the_same_as_once() {
    let mut once = Universe::new(Some(9), Some(9));
    once.place_glider(4, 4);
    let mut twice = Universe::new(Some(9), Some(9));
    twice.place_glider(4, 4);
    twice.place_glider(4, 4);
    assert_eq!(once.get_cells(), twice.get_cells());
}

#[test]
fn place_heart_marks_its_eleven_cells() {
    let mut universe = dead(8, 8);
    universe.place_heart(4, 4);
    assert_eq!(
        live_cells(&universe),
        vec![
            (2, 4),
            (3, 3),
            (3, 4),
            (3, 5),
            (4, 2),
            (4, 3),
            (4, 4),
            (4, 5),
            (4, 6),
            (5, 3),
            (5, 5)
        ]
    );
}

#[test]
fn place_heart_at_the_smallest_anchor() {
    let mut universe = dead(6, 5);
    universe.place_heart(3, 3);
    assert_eq!(live_cells(&universe).len(), 11);
    assert_eq!(live_cells(&universe)[0], (1, 3));
    assert_eq!(live_cells(&universe)[10], (4, 4));
}

#[test]
fn place_heart_near_the_top_or_left_does_nothing() {
    let mut universe = dead(10, 10);
    universe.place_heart(2, 5);
    universe.place_heart(5, 2);
    universe.place_heart(0, 0);
    assert!(universe.get_cells().iter().all(|cell| *cell == Cell::Dead));
}

#[test]
fn place_heart_outside_does_nothing() {
    let mut universe = dead(10, 10);
    universe.place_heart(10, 5);
    universe.place_heart(5, 10);
    universe.place_heart(200, 5);
    universe.place_heart(5, u32::MAX);
    assert!(universe.get_cells().iter().all(|cell| *cell == Cell::Dead));
}

#[test]
fn place_heart_twice_is_the_same_as_once() {
    let mut once = Universe::new(Some(9), Some(9));
    once.place_heart(4, 4);
    let mut twice = Universe::new(Some(9), Some(9));
    twice.place_heart(4, 4);
    twice.place_heart(4, 4);
    assert_eq!(once.get_cells(), twice.get_cells());
}

#[test]
fn place_church_marks_its_thirteen_cells() {
    let mut universe = dead(8, 8);
    universe.place_church(4, 4);
    assert_eq!(
        live_cells(&universe),
        vec![
            (2, 3),
            (2, 4),
            (2, 5),
            (3, 3),
            (3, 4),
            (3, 5),
            (4, 3),
            (4, 4),
            (4, 5),
            (5, 3),
            (5, 4),
            (5, 5),
            (6, 4)
        ]
    );
}

#[test]
fn place_church_at_the_smallest_anchor() {
    let mut universe = dead(5, 6);
    universe.place_church(3, 3);
    assert_eq!(live_cells(&universe).len(), 13);
    assert_eq!(live_cells(&universe)[0], (1, 2));
    assert_eq!(live_cells(&universe)[12], (5, 3));
}

#[test]
fn place_church_near_the_top_or_left_does_nothing() {
    let mut universe = dead(10, 10);
    universe.place_church(2, 5);
    universe.place_church(5, 2);
    assert!(universe.get_cells().iter().all(|cell| *cell == Cell::Dead));
}

#[test]
fn place_church_outside_does_nothing() {
    let mut universe = dead(10, 10);
    universe.place_church(10, 5);
    universe.place_church(5, 10);
    universe.place_church(u32::MAX, 5);
    assert!(universe.get_cells().iter().all(|cell| *cell == Cell::Dead));
}

#[test]
fn place_church_twice_is_the_same_as_once() {
    let mut once = Universe::new(Some(9), Some(9));
    once.place_church(4, 4);
    let mut twice = Universe::new(Some(9), Some(9));
    twice.place_church(4, 4);
    twice.place_church(4, 4);
    assert_eq!(once.get_cells(), twice.get_cells());
}

#[test]
fn a_placed_glider_travels() {
    let mut universe = dead(6, 6);
    universe.place_glider(2, 2);
    universe.tick();
    assert_eq!(live_cells(&universe), vec![(2, 1), (2, 3), (3, 2), (3, 3), (4, 2)]);
}

#[test]
fn render_draws_a_line_per_row() {
    let mut universe = dead(3, 2);
    universe.set_cells(&[(0, 1), (1, 0), (1, 2)]);
    assert_eq!(universe.render(), "\u{25FB}\u{25FC}\u{25FB}\n\u{25FC}\u{25FB}\u{25FC}\n");
}

#[test]
fn render_of_a_blank_universe_is_all_hollow() {
    let universe = dead(2, 2);
    assert_eq!(universe.render(), "◻◻\n◻◻\n");
}

#[test]
fn render_of_a_seeded_universe() {
    let universe = Universe::new(Some(4), Some(2));
    assert_eq!(universe.render(), "◼◻◼◻\n◼◻◼◼\n");
}

#[test]
fn render_does_not_change_the_universe() {
    let universe = Universe::new(Some(5), Some(4));
    let before = universe.get_cells().to_vec();
    let first = universe.render();
    let second = universe.render();
    assert_eq!(first, second);
    assert_eq!(universe.get_cells(), &before[..]);
    assert_eq!(first.chars().count(), 4 * 6);
    assert_eq!(first.lines().count(), 4);
}

#[test]
fn render_without_rows_is_empty() {
    let universe = Universe::new(Some(4), Some(0));
    assert_eq!(universe.render(), "");
}

#[test]
fn render_without_columns_is_one_empty_line_per_row() {
    let universe = Universe::new(Some(0), Some(3));
    assert_eq!(universe.render(), "\n\n\n");
}

#[test]
fn cell_toggle_flips_both_ways() {
    let mut cell = Cell::Dead;
    cell.toggle();
    assert_eq!(cell, Cell::Alive);
    cell.toggle();
    assert_eq!(cell, Cell::Dead);
}

#[test]
fn glider_bitmap_is_three_rows_of_three() {
    assert_eq!(get_glider_bitmap(), [(0, 0, 8), (8, 0, 8), (0, 8, 8)]);
}
