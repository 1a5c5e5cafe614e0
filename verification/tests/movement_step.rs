use interest_management::grid::{GridCell, Position};
use interest_management::movement::{
    movement, shared_movement_behaviour, Inputs, PressedInputs, MOVE_SPEED,
};
use interest_management::tracker::{InterestConfig, InterestTracker};

fn held(inputs: &[Inputs]) -> PressedInputs {
    let mut state = PressedInputs::none();
    for input in inputs {
        state.press(input);
    }
    state
}

#[test]
fn nothing_held_moves_nothing() {
    let mut position = Position { x: 3, y: 4 };
    shared_movement_behaviour(&mut position, &PressedInputs::none());
    assert_eq!(position, Position { x: 3, y: 4 });
    shared_movement_behaviour(&mut position, &held(&[Inputs::Delete, Inputs::Spawn]));
    assert_eq!(position, Position { x: 3, y: 4 });
}

#[test]
fn each_direction_moves_by_the_speed() {
    assert_eq!(MOVE_SPEED, 10);
    let mut position = Position { x: 0, y: 0 };
    shared_movement_behaviour(&mut position, &held(&[Inputs::Up]));
    assert_eq!(position, Position { x: 0, y: 10 });
    shared_movement_behaviour(&mut position, &held(&[Inputs::Right]));
    assert_eq!(position, Position { x: 10, y: 10 });
    shared_movement_behaviour(&mut position, &held(&[Inputs::Down, Inputs::Left]));
    assert_eq!(position, Position { x: 0, y: 0 });
    shared_movement_behaviour(&mut position, &held(&[Inputs::Up, Inputs::Down]));
    assert_eq!(position, Position { x: 0, y: 0 });
}

#[test]
fn movement_stops_at_the_edge_of_the_range() {
    let mut position = Position { x: i64::MAX - 3, y: i64::MIN + 3 };
    shared_movement_behaviour(&mut position, &held(&[Inputs::Right, Inputs::Down]));
    assert_eq!(position, Position { x: i64::MAX, y: i64::MIN });
    let mut position = Position { x: i64::MIN, y: i64::MAX };
    shared_movement_behaviour(&mut position, &held(&[Inputs::Left, Inputs::Right, Inputs::Up]));
    assert_eq!(position, Position { x: i64::MIN + 10, y: i64::MAX });
}

#[test]
fn pressed_reports_what_was_pressed() {
    let state = held(&[Inputs::Left, Inputs::Spawn]);
    assert!(state.pressed(&Inputs::Left));
    assert!(state.pressed(&Inputs::Spawn));
    assert!(!state.pressed(&Inputs::Right));
    assert!(!state.pressed(&Inputs::Up));
    assert!(!state.pressed(&Inputs::Down));
    assert!(!state.pressed(&Inputs::Delete));
}

#[test]
fn movement_marks_the_observer_for_the_next_tick() {
    let mut tracker = InterestTracker::new(InterestConfig { cell_size: 25, view_distance: 0 });
    assert!(tracker.handle_connection(1, 100, Position { x: 20, y: 0 }));
    tracker.interest_management();
    assert!(movement(&mut tracker, 100, &held(&[Inputs::Right])));
    assert_eq!(tracker.observer(100).unwrap().position, Position { x: 30, y: 0 });
    assert!(tracker.observer(100).unwrap().changed);
    let updates = tracker.interest_management();
    assert_eq!(updates.len(), 1);
    assert_eq!(updates[0].from, Some(GridCell { x: 0, y: 0 }));
    assert_eq!(updates[0].to, GridCell { x: 1, y: 0 });
    assert!(!movement(&mut tracker, 999, &held(&[Inputs::Right])));
    assert_eq!(tracker.pending_count(), 0);
}
