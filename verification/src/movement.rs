//! Movement: how held-down inputs change the position of an observer.

use crate::grid::{EntityId, Position};
use crate::tracker::InterestTracker;
use vstd::prelude::*;

verus! {

/// World units that one held-down direction moves an observer per step.
pub const MOVE_SPEED: i64 = 10;

/// The actions that a client can hold down.
#[derive(Clone, Copy, Debug, PartialEq, Eq, Structural, Hash)]
pub enum Inputs {
    Up,
    Down,
    Left,
    Right,
    Delete,
    Spawn,
}

/// Which actions a client holds down at one step.
#[derive(Clone, Copy, Debug, PartialEq, Eq, Structural)]
pub struct PressedInputs {
    pub up: bool,
    pub down: bool,
    pub left: bool,
    pub right: bool,
    pub delete: bool,
    pub spawn: bool,
}

impl PressedInputs {
    /// `input` is held down.
    pub open spec fn holds(self, input: Inputs) -> bool {
        match input {
            Inputs::Up => self.up,
            Inputs::Down => self.down,
            Inputs::Left => self.left,
            Inputs::Right => self.right,
            Inputs::Delete => self.delete,
            Inputs::Spawn => self.spawn,
        }
    }

    /// No action held down.
    pub fn none() -> (state: PressedInputs)
        ensures
            state == (PressedInputs {
                up: false,
                down: false,
                left: false,
                right: false,
                delete: false,
                spawn: false,
            }),
    {
        PressedInputs {
            up: false,
            down: false,
            left: false,
            right: false,
            delete: false,
            spawn: false,
        }
    }

    /// Whether `input` is held down.
    pub fn pressed(&self, input: &Inputs) -> (held: bool)
        ensures
            held == self.holds(*input),
    {
        match input {
            Inputs::Up => self.up,
            Inputs::Down => self.down,
            Inputs::Left => self.left,
            Inputs::Right => self.right,
            Inputs::Delete => self.delete,
            Inputs::Spawn => self.spawn,
        }
    }

    /// Marks `input` as held down.
    pub fn press(&mut self, input: &Inputs)
        ensures
            final(self).holds(*input),
            forall|other: Inputs| other != *input ==> final(self).holds(other) == old(self).holds(other),
    {
        match input {
            Inputs::Up => {
                self.up = true;
            },
            Inputs::Down => {
                self.down = true;
            },
            Inputs::Left => {
                self.left = true;
            },
            Inputs::Right => {
                self.right = true;
            },
            Inputs::Delete => {
                self.delete = true;
            },
            Inputs::Spawn => {
                self.spawn = true;
            },
        }
    }
}

/// `value`, held to the range of a coordinate.
pub open spec fn saturate(value: int) -> i64 {
    if value < i64::MIN {
        i64::MIN
    } else if value > i64::MAX {
        i64::MAX
    } else {
        value as i64
    }
}

/// Where an observer at `position` stands after one step with `input`
/// held down: up and down move it along y, left and right along x, each
/// by `MOVE_SPEED`, and it stops at the edge of the coordinate range.
pub open spec fn moved_by(position: Position, input: PressedInputs) -> Position {
    let raised = if input.up {
        saturate(position.y + MOVE_SPEED)
    } else {
        position.y
    };
    let y = if input.down {
        saturate(raised - MOVE_SPEED)
    } else {
        raised
    };
    let shifted = if input.left {
        saturate(position.x - MOVE_SPEED)
    } else {
        position.x
    };
    let x = if input.right {
        saturate(shifted + MOVE_SPEED)
    } else {
        shifted
    };
    Position { x, y }
}

/// One step towards larger coordinates.
fn step_up(value: i64) -> (stepped: i64)
    ensures
        stepped == saturate(value + MOVE_SPEED),
{
    if value <= i64::MAX - MOVE_SPEED {
        value + MOVE_SPEED
    } else {
        i64::MAX
    }
}

/// One step towards smaller coordinates.
fn step_down(value: i64) -> (stepped: i64)
    ensures
        stepped == saturate(value - MOVE_SPEED),
{
    if value >= i64::MIN + MOVE_SPEED {
        value - MOVE_SPEED
    } else {
        i64::MIN
    }
}

/// Moves `position` by one step for the directions that are held down.
pub fn shared_movement_behaviour(position: &mut Position, input: &PressedInputs)
    ensures
        *final(position) == moved_by(*old(position), *input),
{
    if input.pressed(&Inputs::Up) {
        position.y = step_up(position.y);
    }
    if input.pressed(&Inputs::Down) {
        position.y = step_down(position.y);
    }
    if input.pressed(&Inputs::Left) {
        position.x = step_down(position.x);
    }
    if input.pressed(&Inputs::Right) {
        position.x = step_up(position.x);
    }
}

/// Moves the observer `entity` by one step of `input` and marks it as
/// changed for the next tick. Nothing changes if `entity` is no observer
/// or the step would take it out of the supported extent.
pub fn movement(tracker: &mut InterestTracker, entity: EntityId, input: &PressedInputs) -> (moved:
    bool)
    requires
        old(tracker).wf(),
    ensures
        final(tracker).wf(),
        moved == (old(tracker)@.observers.contains_key(entity) && old(tracker)@.supports(
            moved_by(old(tracker)@.observers[entity].position, *input),
        )),
        final(tracker)@ == if moved {
            old(tracker)@.moved(
                entity,
                moved_by(old(tracker)@.observers[entity].position, *input),
            )
        } else {
            old(tracker)@
        },
{
    match tracker.observer(entity) {
        Some(observer) => {
            let mut position = observer.position;
            shared_movement_behaviour(&mut position, input);
            tracker.update_position(entity, position)
        },
        None => false,
    }
}

} // verus!
