use interest_management::bootstrap::{cell_origin, load_regions, region_cells};
use interest_management::grid::{
    get_grid_position, get_room_id_from_grid_position, GridCell, Position,
};
use interest_management::tracker::{InterestConfig, InterestTracker};

#[test]
fn region_block_has_every_cell_once() {
    let cells = region_cells(3);
    assert_eq!(cells.len(), 49);
    for x in -3i64..=3 {
        for y in -3i64..=3 {
            assert_eq!(cells.iter().filter(|c| **c == GridCell { x, y }).count(), 1);
        }
    }
    assert_eq!(region_cells(0), vec![GridCell { x: 0, y: 0 }]);
}

#[test]
fn cell_origin_lies_in_its_cell() {
    assert_eq!(cell_origin(GridCell { x: 2, y: -3 }, 1024), Some(Position { x: 2048, y: -3072 }));
    let origin = cell_origin(GridCell { x: -7, y: 5 }, 16).unwrap();
    assert_eq!(get_grid_position(origin, 16), GridCell { x: -7, y: 5 });
    assert_eq!(cell_origin(GridCell { x: i64::MAX, y: 0 }, 2), None);
    assert_eq!(cell_origin(GridCell { x: 0, y: i64::MIN }, 2), None);
    assert_eq!(cell_origin(GridCell { x: i64::MAX, y: i64::MIN }, 1),
        Some(Position { x: i64::MAX, y: i64::MIN }));
}

#[test]
fn regions_are_loaded_one_per_cell_without_subscriptions() {
    let mut tracker = InterestTracker::new(InterestConfig { cell_size: 1024, view_distance: 1 });
    let cells = region_cells(3);
    let entities: Vec<u64> = (0..49u64).map(|k| 5000 + k).collect();
    assert_eq!(load_regions(&mut tracker, &cells, &entities), 49);
    assert_eq!(tracker.index().directory().room_count(), 49);
    for (k, cell) in cells.iter().enumerate() {
        let room = get_room_id_from_grid_position(*cell);
        assert_eq!(tracker.index().entities_of(room), vec![5000 + k as u64]);
        assert!(tracker.index().clients_of(room).is_empty());
        assert_eq!(tracker.region(5000 + k as u64), Some(*cell));
    }
    assert_eq!(tracker.pending_count(), 0);
    assert!(tracker.interest_management().is_empty());
}

#[test]
fn loading_takes_as_many_pairs_as_both_lists_have() {
    let mut tracker = InterestTracker::new(InterestConfig { cell_size: 1024, view_distance: 1 });
    let cells = region_cells(1);
    assert_eq!(load_regions(&mut tracker, &cells, &vec![1, 2, 3]), 3);
    assert_eq!(tracker.index().directory().room_count(), 3);
    assert_eq!(load_regions(&mut tracker, &vec![GridCell { x: 9, y: 9 }], &vec![7, 8]), 1);
    assert_eq!(tracker.region(7), Some(GridCell { x: 9, y: 9 }));
    assert_eq!(tracker.region(8), None);
    assert_eq!(load_regions(&mut tracker, &cells, &Vec::new()), 0);
}

#[test]
fn a_connecting_client_sees_the_regions_around_it() {
    let mut tracker = InterestTracker::new(InterestConfig { cell_size: 1024, view_distance: 1 });
    let cells = region_cells(3);
    let entities: Vec<u64> = (0..49u64).map(|k| 5000 + k).collect();
    load_regions(&mut tracker, &cells, &entities);
    assert!(tracker.handle_connection(1, 9000, Position { x: 100, y: 100 }));
    tracker.interest_management();
    let visible = tracker.entities_visible_to(1);
    assert_eq!(visible.len(), 10);
    assert!(visible.contains(&9000));
    for (k, cell) in cells.iter().enumerate() {
        let near = cell.x.abs() <= 1 && cell.y.abs() <= 1;
        assert_eq!(visible.contains(&(5000 + k as u64)), near);
    }
}
