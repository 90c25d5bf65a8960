use tetris::board::{
    clear_full_rows, clear_row, is_row_full, new_blank_grid, new_blank_row, set_cell, MIN_HEIGHT,
    MIN_WIDTH,
};
use tetris::tetromino::Color;

fn grid_from(rows: &[&str]) -> Vec<Vec<Color>> {
    rows.iter()
        .map(|row| {
            row.chars()
                .map(|cell| match cell {
                    '.' => Color::Empty,
                    'c' => Color::Cyan,
                    'b' => Color::Blue,
                    'o' => Color::Orange,
                    'y' => Color::Yellow,
                    'g' => Color::Green,
                    'p' => Color::Purple,
                    'r' => Color::Red,
                    other => panic!("no colour for {}", other),
                })
                .collect()
        })
        .collect()
}

#[test]
fn smallest_field() {
    assert_eq!(MIN_WIDTH, 10);
    assert_eq!(MIN_HEIGHT, 20);
}

#[test]
fn blank_row_is_empty() {
    assert_eq!(new_blank_row(0), Vec::<Color>::new());
    assert_eq!(new_blank_row(3), vec![Color::Empty, Color::Empty, Color::Empty]);
}

#[test]
fn blank_grid_is_empty() {
    let grid = new_blank_grid(10, 20);
    assert_eq!(grid.len(), 20);
    for row in grid.iter() {
        assert_eq!(row.len(), 10);
        assert!(row.iter().all(|cell| *cell == Color::Empty));
    }
    assert_eq!(new_blank_grid(4, 0).len(), 0);
}

#[test]
fn full_rows_are_told_apart() {
    assert!(is_row_full(&vec![Color::Red, Color::Cyan, Color::Blue]));
    assert!(!is_row_full(&vec![Color::Red, Color::Empty, Color::Blue]));
    assert!(!is_row_full(&vec![Color::Empty, Color::Red]));
    assert!(!is_row_full(&vec![Color::Red, Color::Empty]));
    assert!(!is_row_full(&new_blank_row(10)));
}

#[test]
fn set_cell_writes_one_cell() {
    let mut grid = new_blank_grid(3, 2);
    set_cell(&mut grid, 1, 2, Color::Green);
    assert_eq!(grid, grid_from(&["...", "..g"]));
    set_cell(&mut grid, 0, 0, Color::Red);
    assert_eq!(grid, grid_from(&["r..", "..g"]));
    set_cell(&mut grid, 1, 2, Color::Empty);
    assert_eq!(grid, grid_from(&["r..", "..."]));
}

#[test]
fn clear_row_empties_every_cell() {
    let mut row = vec![Color::Red, Color::Empty, Color::Blue];
    clear_row(&mut row);
    assert_eq!(row, new_blank_row(3));
}

#[test]
fn sweep_without_full_rows_changes_nothing() {
    let mut grid = grid_from(&["...", "r.r", ".b.", "gg."]);
    clear_full_rows(&mut grid);
    assert_eq!(grid, grid_from(&["...", "r.r", ".b.", "gg."]));
}

#[test]
fn sweep_clears_one_row() {
    let mut grid = grid_from(&["...", "r..", "bbb", ".g."]);
    clear_full_rows(&mut grid);
    assert_eq!(grid, grid_from(&["...", "...", "r..", ".g."]));
}

#[test]
fn sweep_clears_the_bottom_row() {
    let mut grid = grid_from(&["c..", ".y.", "..p", "ooo"]);
    clear_full_rows(&mut grid);
    assert_eq!(grid, grid_from(&["...", "c..", ".y.", "..p"]));
}

#[test]
fn sweep_clears_the_top_row() {
    let mut grid = grid_from(&["ooo", ".y.", "..p"]);
    clear_full_rows(&mut grid);
    assert_eq!(grid, grid_from(&["...", ".y.", "..p"]));
}

#[test]
fn sweep_clears_two_rows_that_are_apart() {
    let mut grid = grid_from(&["c..", ".y.", "rrr", "..p", "bbb", "g.g"]);
    clear_full_rows(&mut grid);
    assert_eq!(grid, grid_from(&["...", "...", "c..", ".y.", "..p", "g.g"]));
}

#[test]
fn sweep_clears_rows_that_touch() {
    let mut grid = grid_from(&["c..", "rrr", "bbb", "ggg", "..p"]);
    clear_full_rows(&mut grid);
    assert_eq!(grid, grid_from(&["...", "...", "...", "c..", "..p"]));
}

#[test]
fn sweep_clears_every_row() {
    let mut grid = grid_from(&["rr", "bb", "gg"]);
    clear_full_rows(&mut grid);
    assert_eq!(grid, grid_from(&["..", "..", ".."]));
}

#[test]
fn sweep_keeps_the_count_of_cells_in_the_rows_that_stay() {
    let mut grid = grid_from(&["c.c", "ppp", "..y", "rrr", "g.."]);
    clear_full_rows(&mut grid);
    let occupied: usize =
        grid.iter().map(|row| row.iter().filter(|cell| **cell != Color::Empty).count()).sum();
    assert_eq!(occupied, 4);
    assert_eq!(grid, grid_from(&["...", "...", "c.c", "..y", "g.."]));
}

#[test]
fn sweep_of_no_rows() {
    let mut grid: Vec<Vec<Color>> = Vec::new();
    clear_full_rows(&mut grid);
    assert!(grid.is_empty());
}
