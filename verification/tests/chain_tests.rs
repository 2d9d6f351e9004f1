use puyopuyo::chain::{chain_step, delete_sub};
use puyopuyo::grid::{column_heights, empty_grid, get_cell, set_cell, OJAMA, WALL};
use puyopuyo::gravity::fall_check;
use puyopuyo::ojama::give_extra;

fn grid_with(cells: &[(usize, usize, i32)]) -> Vec<i32> {
    let mut g = empty_grid();
    for &(i, j, c) in cells {
        set_cell(&mut g, i, j, c);
    }
    g
}

#[test]
fn empty_grid_has_walls() {
    let g = empty_grid();
    assert_eq!(g.len(), 176);
    assert_eq!(get_cell(&g, 0, 5), WALL);
    assert_eq!(get_cell(&g, 7, 21), WALL);
    assert_eq!(get_cell(&g, 3, 0), WALL);
    assert_eq!(get_cell(&g, 3, 1), 0);
}

#[test]
fn column_heights_count_to_first_gap() {
    let g = grid_with(&[(1, 1, 2), (1, 2, 3), (1, 4, 1), (2, 1, 6)]);
    let dan = column_heights(&g);
    assert_eq!(dan, vec![22, 3, 2, 1, 1, 1, 1, 22]);
}

#[test]
fn vertical_four_is_cleared() {
    let mut g = grid_with(&[(1, 1, 1), (1, 2, 1), (1, 3, 1), (1, 4, 1), (2, 1, 2)]);
    let (cells, base, bonus) = chain_step(&mut g, 1);
    assert_eq!(cells.len(), 4);
    assert_eq!(base, 40);
    assert_eq!(bonus, 1);
    for j in 1..=4 {
        assert_eq!(get_cell(&g, 1, j), 0);
    }
    assert_eq!(get_cell(&g, 2, 1), 2);
}

#[test]
fn three_of_a_colour_stay() {
    let mut g = grid_with(&[(1, 1, 1), (1, 2, 1), (2, 1, 1)]);
    let before = g.clone();
    let (cells, base, bonus) = chain_step(&mut g, 1);
    assert!(cells.is_empty());
    assert_eq!(base, 0);
    assert_eq!(bonus, 1);
    assert_eq!(g, before);
}

#[test]
fn two_colours_second_link_bonus() {
    // five of colour 1 in an L shape, four of colour 2 in a row
    let mut g = grid_with(&[
        (1, 1, 1),
        (1, 2, 1),
        (1, 3, 1),
        (2, 1, 1),
        (3, 1, 1),
        (4, 1, 2),
        (5, 1, 2),
        (6, 1, 2),
        (6, 2, 2),
    ]);
    let (cells, base, bonus) = chain_step(&mut g, 2);
    assert_eq!(cells.len(), 9);
    assert_eq!(base, 90);
    // chain 8 + group of five 2 + two colours 3
    assert_eq!(bonus, 13);
}

#[test]
fn large_group_bonus_caps() {
    // twelve cells of colour 3: two full columns of six
    let mut cells = Vec::new();
    for j in 1..=6 {
        cells.push((2, j, 3));
        cells.push((3, j, 3));
    }
    let mut g = grid_with(&cells);
    let (cleared, base, bonus) = chain_step(&mut g, 19);
    assert_eq!(cleared.len(), 12);
    assert_eq!(base, 120);
    assert_eq!(bonus, 512 + 10);
}

#[test]
fn garbage_next_to_a_group_goes_with_it() {
    let mut g = grid_with(&[
        (1, 1, 4),
        (2, 1, 4),
        (3, 1, 4),
        (4, 1, 4),
        (5, 1, OJAMA),
        (1, 2, OJAMA),
        (6, 1, OJAMA),
    ]);
    let (cells, _, _) = chain_step(&mut g, 1);
    assert_eq!(cells.len(), 6);
    assert_eq!(&cells[..4], &[(1, 1), (2, 1), (3, 1), (4, 1)]);
    assert!(cells[4..].contains(&(5, 1)) && cells[4..].contains(&(1, 2)));
    assert_eq!(get_cell(&g, 5, 1), 0);
    assert_eq!(get_cell(&g, 1, 2), 0);
    assert_eq!(get_cell(&g, 6, 1), OJAMA);
}

#[test]
fn garbage_above_the_top_row_stays() {
    let mut g = grid_with(&[
        (1, 12, 2),
        (2, 12, 2),
        (3, 12, 2),
        (4, 12, 2),
        (1, 13, OJAMA),
        (2, 11, OJAMA),
    ]);
    let (cells, _, _) = chain_step(&mut g, 1);
    assert_eq!(cells.len(), 5);
    assert_eq!(get_cell(&g, 1, 13), OJAMA);
    assert_eq!(get_cell(&g, 2, 11), 0);
}

#[test]
fn blocks_above_the_visible_rows_do_not_count() {
    let mut g = grid_with(&[(1, 11, 1), (1, 12, 1), (1, 13, 1), (1, 14, 1)]);
    let (cells, _, _) = chain_step(&mut g, 1);
    assert!(cells.is_empty());
}

#[test]
fn flood_fill_marks_one_group() {
    let mut g = grid_with(&[(2, 1, 5), (2, 2, 5), (3, 2, 5), (4, 1, 5)]);
    let v = delete_sub(&mut g, 5, 2, 1);
    assert_eq!(v.len(), 3);
    assert_eq!(get_cell(&g, 2, 1), -1);
    assert_eq!(get_cell(&g, 3, 2), -1);
    assert_eq!(get_cell(&g, 4, 1), 5);
    let none = delete_sub(&mut g, 5, 2, 1);
    assert!(none.is_empty());
}

#[test]
fn blocks_fall_into_gaps() {
    let mut g = grid_with(&[(1, 1, 1), (1, 3, 2), (1, 6, 3), (2, 2, 4)]);
    let moves = fall_check(&mut g);
    assert_eq!(get_cell(&g, 1, 1), 1);
    assert_eq!(get_cell(&g, 1, 2), 2);
    assert_eq!(get_cell(&g, 1, 3), 3);
    assert_eq!(get_cell(&g, 1, 6), 0);
    assert_eq!(get_cell(&g, 2, 1), 4);
    assert_eq!(moves, vec![(1, 3, 2), (1, 6, 3), (2, 2, 1)]);
    let again = fall_check(&mut g);
    assert!(again.is_empty());
}

#[test]
fn cleared_field_has_no_group_left() {
    let mut g = grid_with(&[(1, 1, 1), (1, 2, 1), (1, 3, 1), (1, 4, 1), (2, 1, 1), (2, 2, 2)]);
    let _ = chain_step(&mut g, 1);
    let (cells, _, _) = chain_step(&mut g, 2);
    assert!(cells.is_empty());
}

#[test]
fn falling_keeps_every_block() {
    let cells = [(1, 2, 1), (1, 5, 6), (3, 9, 2), (3, 10, 2), (3, 20, 4), (6, 12, 5)];
    let mut g = grid_with(&cells);
    let blocks = |g: &Vec<i32>, i: usize| (1..22).filter(|&j| get_cell(g, i, j) != 0).count();
    let before: Vec<usize> = (1..7).map(|i| blocks(&g, i)).collect();
    let _ = fall_check(&mut g);
    let after: Vec<usize> = (1..7).map(|i| blocks(&g, i)).collect();
    assert_eq!(before, after);
    assert_eq!(after, vec![2, 0, 3, 0, 0, 1]);
    assert_eq!(get_cell(&g, 3, 3), 4);
}

#[test]
fn flood_fill_starts_at_its_cell() {
    let mut g = grid_with(&[(1, 1, 1), (2, 1, 1), (1, 2, 1)]);
    let v = delete_sub(&mut g, 1, 1, 1);
    assert_eq!(v, vec![(1, 1), (2, 1), (1, 2)]);
    assert_eq!(get_cell(&g, 2, 1), -1);
    let mut h = grid_with(&[(2, 13, 3)]);
    assert!(delete_sub(&mut h, 3, 2, 13).is_empty());
    assert!(delete_sub(&mut h, 3, 40, 30).is_empty());
    assert_eq!(get_cell(&h, 2, 13), 3);
}

#[test]
fn extra_garbage_goes_to_the_chosen_column() {
    let mut c = vec![0, 1, 1, 2, 1, 1, 1, 0];
    give_extra(&mut c, 1, 7);
    assert_eq!(c, vec![0, 1, 1, 2, 2, 1, 1, 0]);
    let mut d = vec![0, 1, 1, 2, 1, 1, 1, 0];
    give_extra(&mut d, 1, 5);
    assert_eq!(d, vec![0, 2, 1, 2, 1, 1, 1, 0]);
}

#[test]
fn groups_come_in_scan_order_then_garbage() {
    let mut g = grid_with(&[(1, 1, 1), (1, 2, 1), (1, 3, 1), (1, 4, 1), (2, 1, OJAMA)]);
    let (cells, base, bonus) = chain_step(&mut g, 1);
    assert_eq!(cells, vec![(1, 1), (1, 2), (1, 3), (1, 4), (2, 1)]);
    assert_eq!((base, bonus), (40, 1));
    let mut h = grid_with(&[
        (1, 1, 1),
        (1, 2, 1),
        (1, 3, 1),
        (1, 4, 1),
        (3, 1, 1),
        (3, 2, 1),
        (3, 3, 1),
        (3, 4, 1),
    ]);
    let (cells, base, bonus) = chain_step(&mut h, 2);
    assert_eq!(cells, vec![(1, 1), (1, 2), (1, 3), (1, 4), (3, 1), (3, 2), (3, 3), (3, 4)]);
    assert_eq!((base, bonus), (80, 8));
}
