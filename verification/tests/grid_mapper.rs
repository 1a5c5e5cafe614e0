use interest_management::grid::{
    get_grid_position, get_room_id_from_grid_position, GridCell, Position, CELL_LIMIT,
};

#[test]
fn cell_of_position_rounds_down() {
    assert_eq!(get_grid_position(Position { x: 50, y: 50 }, 100), GridCell { x: 0, y: 0 });
    assert_eq!(get_grid_position(Position { x: 160, y: 50 }, 100), GridCell { x: 1, y: 0 });
    assert_eq!(get_grid_position(Position { x: -1, y: -100 }, 100), GridCell { x: -1, y: -1 });
    assert_eq!(get_grid_position(Position { x: -101, y: 99 }, 100), GridCell { x: -2, y: 0 });
    assert_eq!(get_grid_position(Position { x: 100, y: 200 }, 100), GridCell { x: 1, y: 2 });
}

#[test]
fn room_id_exact_values() {
    // zigzag: 0 -> 0, -1 -> 1, 1 -> 2, -2 -> 3, 2 -> 4; pair(a, b) = (a + b)(a + b + 1) / 2 + b
    assert_eq!(get_room_id_from_grid_position(GridCell { x: 0, y: 0 }), 0);
    assert_eq!(get_room_id_from_grid_position(GridCell { x: 1, y: 0 }), 3);
    assert_eq!(get_room_id_from_grid_position(GridCell { x: 0, y: 1 }), 5);
    assert_eq!(get_room_id_from_grid_position(GridCell { x: -1, y: 0 }), 1);
    assert_eq!(get_room_id_from_grid_position(GridCell { x: 0, y: -1 }), 2);
    assert_eq!(get_room_id_from_grid_position(GridCell { x: -1, y: -1 }), 4);
    assert_eq!(get_room_id_from_grid_position(GridCell { x: 3, y: 3 }), 84);
}

#[test]
fn room_id_at_the_limit_fits() {
    let far = GridCell { x: CELL_LIMIT, y: CELL_LIMIT };
    let s: u128 = 4 * (CELL_LIMIT as u128);
    let expected = s * (s + 1) / 2 + 2 * (CELL_LIMIT as u128);
    assert_eq!(get_room_id_from_grid_position(far) as u128, expected);
}

#[test]
fn room_ids_of_distinct_cells_differ() {
    let mut seen = std::collections::HashSet::new();
    for x in -12i64..=12 {
        for y in -12i64..=12 {
            assert!(seen.insert(get_room_id_from_grid_position(GridCell { x, y })));
        }
    }
    assert_eq!(seen.len(), 625);
}
