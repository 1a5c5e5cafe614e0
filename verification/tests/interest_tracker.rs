use interest_management::grid::{
    get_room_id_from_grid_position, GridCell, LastPosition, Position, CELL_LIMIT,
};
use interest_management::tracker::{InterestConfig, InterestTracker};

fn room(x: i64, y: i64) -> u64 {
    get_room_id_from_grid_position(GridCell { x, y })
}

fn at(x: i64, y: i64) -> Position {
    Position { x, y }
}

fn sorted(mut ids: Vec<u64>) -> Vec<u64> {
    ids.sort();
    ids
}

fn sorted_set(ids: std::collections::HashSet<u64>) -> Vec<u64> {
    let mut list: Vec<u64> = ids.into_iter().collect();
    list.sort();
    list
}

fn tracker(cell_size: i64, view_distance: u32) -> InterestTracker {
    let config = InterestConfig { cell_size, view_distance };
    assert!(config.is_valid());
    InterestTracker::new(config)
}

#[test]
fn config_validation() {
    assert!(InterestConfig { cell_size: 1, view_distance: 0 }.is_valid());
    assert!(InterestConfig { cell_size: 1024, view_distance: 1 }.is_valid());
    assert!(!InterestConfig { cell_size: 0, view_distance: 1 }.is_valid());
    assert!(!InterestConfig { cell_size: -5, view_distance: 1 }.is_valid());
    assert!(InterestConfig { cell_size: 1, view_distance: CELL_LIMIT as u32 }.is_valid());
    assert!(!InterestConfig { cell_size: 1, view_distance: CELL_LIMIT as u32 + 1 }.is_valid());
    let made = tracker(100, 1);
    assert_eq!(made.config(), InterestConfig { cell_size: 100, view_distance: 1 });
}

#[test]
fn spawn_then_cross_one_cell() {
    let mut tracker = tracker(100, 1);
    assert!(tracker.handle_connection(1, 77, at(50, 50)));
    // nothing is subscribed or placed before the first tick
    assert!(tracker.index().rooms_of(1).is_empty());
    assert!(tracker.index().entities_of(room(0, 0)).is_empty());
    assert_eq!(tracker.observer(77).unwrap().last_position, LastPosition(None));
    assert_eq!(tracker.pending_count(), 1);

    let updates = tracker.interest_management();
    assert_eq!(updates.len(), 1);
    assert_eq!(updates[0].client, 1);
    assert_eq!(updates[0].entity, 77);
    assert_eq!(updates[0].from, None);
    assert_eq!(updates[0].to, GridCell { x: 0, y: 0 });
    assert!(updates[0].left.is_empty());
    let mut nine = Vec::new();
    for x in -1i64..=1 {
        for y in -1i64..=1 {
            nine.push(room(x, y));
        }
    }
    nine.sort();
    assert_eq!(nine.len(), 9);
    assert_eq!(sorted(updates[0].joined.clone()), nine);
    assert_eq!(sorted(tracker.index().rooms_of(1)), nine);
    assert_eq!(tracker.index().entities_of(room(0, 0)), vec![77]);
    for x in -1i64..=1 {
        for y in -1i64..=1 {
            if (x, y) != (0, 0) {
                assert!(tracker.index().entities_of(room(x, y)).is_empty());
            }
        }
    }
    assert_eq!(tracker.observer(77).unwrap().last_position, LastPosition(Some(at(50, 50))));
    assert!(!tracker.observer(77).unwrap().changed);
    assert_eq!(tracker.pending_count(), 0);

    assert!(tracker.update_position(77, at(160, 50)));
    assert!(tracker.observer(77).unwrap().changed);
    // the rooms follow only on the tick
    assert_eq!(tracker.index().entities_of(room(0, 0)), vec![77]);
    let updates = tracker.interest_management();
    assert_eq!(updates.len(), 1);
    assert_eq!(updates[0].from, Some(GridCell { x: 0, y: 0 }));
    assert_eq!(updates[0].to, GridCell { x: 1, y: 0 });
    assert_eq!(
        sorted(updates[0].left.clone()),
        sorted(vec![room(-1, -1), room(-1, 0), room(-1, 1)])
    );
    assert_eq!(
        sorted(updates[0].joined.clone()),
        sorted(vec![room(2, -1), room(2, 0), room(2, 1)])
    );
    assert!(tracker.index().entities_of(room(0, 0)).is_empty());
    assert_eq!(tracker.index().entities_of(room(1, 0)), vec![77]);
    let mut expected = Vec::new();
    for x in 0i64..=2 {
        for y in -1i64..=1 {
            expected.push(room(x, y));
        }
    }
    expected.sort();
    assert_eq!(sorted(tracker.index().rooms_of(1)), expected);
    assert_eq!(tracker.observer(77).unwrap().last_position, LastPosition(Some(at(160, 50))));
}

#[test]
fn rooms_of_both_windows_are_not_touched() {
    let mut tracker = tracker(100, 1);
    assert!(tracker.handle_connection(1, 77, at(50, 50)));
    tracker.interest_management();
    assert!(tracker.update_position(77, at(160, 50)));
    let updates = tracker.interest_management();
    for x in 0i64..=1 {
        for y in -1i64..=1 {
            assert!(!updates[0].left.contains(&room(x, y)));
            assert!(!updates[0].joined.contains(&room(x, y)));
        }
    }
    assert_eq!(updates[0].left.len(), 3);
    assert_eq!(updates[0].joined.len(), 3);
}

#[test]
fn move_within_a_cell_touches_nothing() {
    let mut tracker = tracker(100, 1);
    assert!(tracker.handle_connection(1, 77, at(50, 50)));
    tracker.interest_management();
    let rooms_before = sorted(tracker.index().rooms_of(1));
    assert!(tracker.update_position(77, at(99, 0)));
    assert_eq!(tracker.pending_count(), 1);
    let updates = tracker.interest_management();
    assert_eq!(updates.len(), 1);
    assert_eq!(updates[0].from, Some(GridCell { x: 0, y: 0 }));
    assert_eq!(updates[0].to, GridCell { x: 0, y: 0 });
    assert!(updates[0].left.is_empty());
    assert!(updates[0].joined.is_empty());
    assert_eq!(sorted(tracker.index().rooms_of(1)), rooms_before);
    assert_eq!(tracker.index().entities_of(room(0, 0)), vec![77]);
    assert_eq!(tracker.observer(77).unwrap().last_position, LastPosition(Some(at(99, 0))));
}

#[test]
fn tick_without_changes_does_nothing() {
    let mut tracker = tracker(100, 1);
    assert!(tracker.interest_management().is_empty());
    assert!(tracker.handle_connection(1, 77, at(50, 50)));
    assert_eq!(tracker.interest_management().len(), 1);
    assert!(tracker.interest_management().is_empty());
    assert_eq!(tracker.index().rooms_of(1).len(), 9);
}

#[test]
fn several_writes_before_a_tick_are_one_update() {
    let mut tracker = tracker(100, 1);
    assert!(tracker.handle_connection(1, 77, at(50, 50)));
    tracker.interest_management();
    assert!(tracker.update_position(77, at(950, 50)));
    assert!(tracker.update_position(77, at(250, 50)));
    assert_eq!(tracker.pending_count(), 1);
    let updates = tracker.interest_management();
    assert_eq!(updates.len(), 1);
    assert_eq!(updates[0].from, Some(GridCell { x: 0, y: 0 }));
    assert_eq!(updates[0].to, GridCell { x: 2, y: 0 });
    assert_eq!(tracker.index().entities_of(room(2, 0)), vec![77]);
    assert!(tracker.index().entities_of(room(9, 0)).is_empty());
}

#[test]
fn two_observers_in_one_cell_see_each_other() {
    let mut tracker = tracker(10, 0);
    assert!(tracker.handle_connection(1, 100, at(30, 30)));
    assert!(tracker.handle_connection(2, 200, at(39, 35)));
    let updates = tracker.interest_management();
    assert_eq!(updates.len(), 2);
    assert_eq!(updates[0].entity, 100);
    assert_eq!(updates[1].entity, 200);
    assert_eq!(tracker.index().rooms_of(1), vec![room(3, 3)]);
    assert_eq!(tracker.index().rooms_of(2), vec![room(3, 3)]);
    assert_eq!(sorted(tracker.index().clients_of(room(3, 3))), vec![1, 2]);
    assert_eq!(sorted_set(tracker.entities_visible_to(1)), vec![100, 200]);
    assert_eq!(sorted_set(tracker.entities_visible_to(2)), vec![100, 200]);
    assert_eq!(sorted(tracker.index().room_mates(1)), vec![2]);
    assert_eq!(tracker.index().directory().room_count(), 1);
}

#[test]
fn disconnect_removes_client_and_entity() {
    let mut tracker = tracker(100, 1);
    assert!(tracker.handle_connection(1, 100, at(50, 50)));
    assert!(tracker.handle_connection(2, 200, at(250, 50)));
    tracker.interest_management();
    assert_eq!(tracker.index().rooms_of(1).len(), 9);
    assert_eq!(tracker.handle_disconnection(1), Some(100));
    assert!(!tracker.index().has_client(1));
    assert!(tracker.index().rooms_of(1).is_empty());
    assert!(tracker.observer(100).is_none());
    assert!(tracker.player(1).is_none());
    for x in -1i64..=1 {
        for y in -1i64..=1 {
            assert!(!tracker.index().clients_of(room(x, y)).contains(&1));
        }
    }
    // rooms that only client 1 and its entity were in are gone
    assert!(!tracker.index().has_room(room(-1, 0)));
    assert!(!tracker.index().has_room(room(0, 0)));
    // rooms shared with client 2 stay
    assert!(tracker.index().has_room(room(1, 0)));
    assert_eq!(tracker.index().clients_of(room(1, 0)), vec![2]);
    assert_eq!(tracker.index().directory().room_count(), 9);
    assert_eq!(tracker.handle_disconnection(1), None);
    assert_eq!(tracker.handle_disconnection(2), Some(200));
    assert_eq!(tracker.index().directory().room_count(), 0);
}

#[test]
fn disconnect_before_the_first_tick() {
    let mut tracker = tracker(100, 1);
    assert!(tracker.handle_connection(1, 100, at(50, 50)));
    assert!(tracker.handle_connection(2, 200, at(50, 50)));
    assert_eq!(tracker.pending_count(), 2);
    assert_eq!(tracker.handle_disconnection(1), Some(100));
    assert_eq!(tracker.pending_count(), 1);
    let updates = tracker.interest_management();
    assert_eq!(updates.len(), 1);
    assert_eq!(updates[0].entity, 200);
    assert_eq!(tracker.index().entities_of(room(0, 0)), vec![200]);
}

#[test]
fn disconnect_with_a_change_waiting() {
    let mut tracker = tracker(100, 1);
    assert!(tracker.handle_connection(1, 100, at(50, 50)));
    tracker.interest_management();
    assert!(tracker.update_position(100, at(550, 50)));
    assert_eq!(tracker.handle_disconnection(1), Some(100));
    assert_eq!(tracker.pending_count(), 0);
    assert_eq!(tracker.index().directory().room_count(), 0);
    assert!(tracker.interest_management().is_empty());
    // the identifiers can be used again
    assert!(tracker.handle_connection(1, 100, at(50, 50)));
    tracker.interest_management();
    assert_eq!(tracker.index().entities_of(room(0, 0)), vec![100]);
}

#[test]
fn refused_connections_change_nothing() {
    let mut tracker = tracker(100, 1);
    assert!(tracker.handle_connection(1, 100, at(50, 50)));
    // the client has an observer already
    assert!(!tracker.handle_connection(1, 101, at(50, 50)));
    // the entity is an observer already
    assert!(!tracker.handle_connection(2, 100, at(50, 50)));
    // the entity is passively placed
    assert!(tracker.place_entity(300, GridCell { x: 4, y: 4 }));
    assert!(!tracker.handle_connection(2, 300, at(50, 50)));
    // the position is outside the supported extent
    assert!(!tracker.handle_connection(2, 200, at(i64::MAX, 0)));
    assert!(!tracker.supports(at(i64::MAX, 0)));
    assert!(tracker.supports(at(100 * (CELL_LIMIT - 1), 0)));
    assert!(!tracker.supports(at(100 * CELL_LIMIT, 0)));
    assert!(tracker.player(2).is_none());
    assert!(tracker.observer(101).is_none());
    assert_eq!(tracker.pending_count(), 1);
    assert_eq!(tracker.player(1), Some(100));
}

#[test]
fn refused_moves_change_nothing() {
    let mut tracker = tracker(100, 1);
    assert!(!tracker.update_position(5, at(0, 0)));
    assert!(tracker.handle_connection(1, 100, at(50, 50)));
    tracker.interest_management();
    assert!(!tracker.update_position(100, at(0, i64::MIN)));
    assert_eq!(tracker.observer(100).unwrap().position, at(50, 50));
    assert!(!tracker.observer(100).unwrap().changed);
    assert_eq!(tracker.pending_count(), 0);
}

#[test]
fn placed_entities_are_in_one_room_and_subscribe_to_nothing() {
    let mut tracker = tracker(100, 1);
    assert!(tracker.place_entity(300, GridCell { x: 1, y: 1 }));
    assert_eq!(tracker.region(300), Some(GridCell { x: 1, y: 1 }));
    assert_eq!(tracker.index().entities_of(room(1, 1)), vec![300]);
    assert!(tracker.index().clients_of(room(1, 1)).is_empty());
    assert_eq!(tracker.index().directory().room_count(), 1);
    // placing it again moves it
    assert!(tracker.place_entity(300, GridCell { x: 2, y: 2 }));
    assert!(tracker.index().entities_of(room(1, 1)).is_empty());
    assert_eq!(tracker.index().entities_of(room(2, 2)), vec![300]);
    assert_eq!(tracker.index().directory().room_count(), 1);
    // an observer cannot be placed, nor a cell outside the grid used
    assert!(tracker.handle_connection(1, 100, at(50, 50)));
    assert!(!tracker.place_entity(100, GridCell { x: 0, y: 0 }));
    assert!(!tracker.place_entity(301, GridCell { x: CELL_LIMIT + 1, y: 0 }));
    assert!(tracker.place_entity(301, GridCell { x: CELL_LIMIT, y: -CELL_LIMIT }));
    // the observer comes to see the placed entity once it is near
    tracker.interest_management();
    assert_eq!(sorted_set(tracker.entities_visible_to(1)), vec![100]);
    assert!(tracker.update_position(100, at(150, 150)));
    tracker.interest_management();
    assert_eq!(sorted_set(tracker.entities_visible_to(1)), vec![100, 300]);
    assert!(tracker.remove_entity(300));
    assert!(!tracker.remove_entity(300));
    assert!(!tracker.remove_entity(100));
    assert_eq!(sorted_set(tracker.entities_visible_to(1)), vec![100]);
    assert_eq!(tracker.region(300), None);
}

#[test]
fn every_entity_is_in_exactly_one_room_after_each_tick() {
    let mut tracker = tracker(16, 2);
    let clients: [u64; 4] = [1, 2, 3, 4];
    for c in clients {
        assert!(tracker.handle_connection(c, 1000 + c, at(c as i64 * 7, -(c as i64) * 13)));
    }
    for e in 0u64..5 {
        assert!(tracker.place_entity(2000 + e, GridCell { x: e as i64 - 2, y: 1 }));
    }
    let mut seed: i64 = 12345;
    for _round in 0..25 {
        for c in clients {
            seed = (seed * 1103515245 + 12345) % 2147483648;
            let dx = seed % 41 - 20;
            seed = (seed * 1103515245 + 12345) % 2147483648;
            let dy = seed % 41 - 20;
            let here = tracker.observer(1000 + c).unwrap().position;
            assert!(tracker.update_position(1000 + c, at(here.x + dx, here.y + dy)));
        }
        tracker.interest_management();
        for c in clients {
            let here = tracker.observer(1000 + c).unwrap().position;
            let home = GridCell { x: here.x.div_euclid(16), y: here.y.div_euclid(16) };
            let mut holding = 0;
            for x in home.x - 4..=home.x + 4 {
                for y in home.y - 4..=home.y + 4 {
                    let inside = (x - home.x).abs() <= 2 && (y - home.y).abs() <= 2;
                    assert_eq!(tracker.index().is_subscribed(c, room(x, y)), inside);
                    if tracker.index().is_placed(1000 + c, room(x, y)) {
                        holding += 1;
                        assert_eq!((x, y), (home.x, home.y));
                    }
                }
            }
            assert_eq!(holding, 1);
            assert_eq!(tracker.index().rooms_of(c).len(), 25);
        }
    }
}

#[test]
fn negative_coordinates() {
    let mut tracker = tracker(100, 1);
    assert!(tracker.handle_connection(1, 100, at(-1, -1)));
    let updates = tracker.interest_management();
    assert_eq!(updates[0].to, GridCell { x: -1, y: -1 });
    assert_eq!(tracker.index().entities_of(room(-1, -1)), vec![100]);
    assert!(tracker.index().is_subscribed(1, room(-2, -2)));
    assert!(tracker.index().is_subscribed(1, room(0, 0)));
    assert!(!tracker.index().is_subscribed(1, room(1, 0)));
}
