use interest_management::grid::{get_room_id_from_grid_position, GridCell};
use interest_management::window::{cells_outside, room_ids_of, sees_cell, view_window, window_delta};

fn cell(x: i64, y: i64) -> GridCell {
    GridCell { x, y }
}

fn sorted(mut cells: Vec<GridCell>) -> Vec<(i64, i64)> {
    let mut pairs: Vec<(i64, i64)> = cells.drain(..).map(|c| (c.x, c.y)).collect();
    pairs.sort();
    pairs
}

#[test]
fn window_of_radius_zero_is_the_centre() {
    assert_eq!(view_window(cell(3, 3), 0), vec![cell(3, 3)]);
}

#[test]
fn window_of_radius_one_has_nine_cells() {
    let cells = view_window(cell(0, 0), 1);
    assert_eq!(cells.len(), 9);
    assert_eq!(
        sorted(cells),
        vec![(-1, -1), (-1, 0), (-1, 1), (0, -1), (0, 0), (0, 1), (1, -1), (1, 0), (1, 1)]
    );
    assert_eq!(view_window(cell(-4, 9), 2).len(), 25);
}

#[test]
fn sees_cell_is_chebyshev_distance() {
    assert!(sees_cell(cell(0, 0), cell(1, -1), 1));
    assert!(!sees_cell(cell(0, 0), cell(2, 0), 1));
    assert!(!sees_cell(cell(0, 0), cell(0, -2), 1));
    assert!(sees_cell(cell(5, 5), cell(5, 5), 0));
    assert!(!sees_cell(cell(5, 5), cell(5, 6), 0));
    assert!(sees_cell(cell(i64::MIN, 0), cell(i64::MIN + 1, 0), 1));
    assert!(!sees_cell(cell(i64::MIN, 0), cell(i64::MAX, 0), u32::MAX));
}

#[test]
fn delta_between_adjacent_cells() {
    let (left, joined) = window_delta(cell(0, 0), cell(1, 0), 1);
    assert_eq!(sorted(left), vec![(-1, -1), (-1, 0), (-1, 1)]);
    assert_eq!(sorted(joined), vec![(2, -1), (2, 0), (2, 1)]);
}

#[test]
fn delta_on_a_diagonal_step() {
    let (left, joined) = window_delta(cell(0, 0), cell(1, 1), 1);
    assert_eq!(sorted(left), vec![(-1, -1), (-1, 0), (-1, 1), (0, -1), (1, -1)]);
    assert_eq!(sorted(joined), vec![(0, 2), (1, 2), (2, 0), (2, 1), (2, 2)]);
}

#[test]
fn delta_between_far_cells_is_both_windows() {
    let (left, joined) = window_delta(cell(0, 0), cell(10, 10), 1);
    assert_eq!(sorted(left), sorted(view_window(cell(0, 0), 1)));
    assert_eq!(sorted(joined), sorted(view_window(cell(10, 10), 1)));
    let (left, joined) = window_delta(cell(4, 4), cell(4, 4), 2);
    assert!(left.is_empty());
    assert!(joined.is_empty());
}

#[test]
fn cells_outside_keeps_order() {
    let cells = vec![cell(0, 0), cell(5, 5), cell(1, 1), cell(-3, 0)];
    assert_eq!(cells_outside(&cells, cell(0, 0), 1), vec![cell(5, 5), cell(-3, 0)]);
}

#[test]
fn room_ids_follow_the_cells() {
    let cells = vec![cell(0, 0), cell(1, 0), cell(0, 1)];
    assert_eq!(room_ids_of(&cells), vec![0, 3, 5]);
    let window = view_window(cell(2, -2), 1);
    let rooms = room_ids_of(&window);
    for (c, r) in window.iter().zip(rooms.iter()) {
        assert_eq!(get_room_id_from_grid_position(*c), *r);
    }
}
