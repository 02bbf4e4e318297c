//! The two movement controllers: a leap of fixed length, and a constant
//! drift that wraps round the level.

use vstd::prelude::*;
use crate::components::position::{clamp_coord, offset_coord, Direction, Position};
use crate::constants::{LEVEL_SPAN_X_I32, LEVEL_SPAN_Y_I32, MAX_X_I32, MAX_Y_I32};

verus! {

/// Pixel-units that a leaping entity covers per drive.
pub const STEP_SPEED: i32 = 2;

/// Drives that make up one leap: `MOTION_STEPS * STEP_SPEED` is one tile.
pub const MOTION_STEPS: u32 = 32;

/// Whether `position` lies beyond the level's bound on the axis of
/// `direction`, on the side that `direction` points to.
pub open spec fn spec_is_offscreen(position: Position, direction: Direction) -> bool {
    match direction {
        Direction::Right => position.x > MAX_X_I32,
        Direction::Left => position.x < -MAX_X_I32,
        Direction::Up => position.y > MAX_Y_I32,
        Direction::Down => position.y < -MAX_Y_I32,
    }
}

/// The coordinate on the axis of `direction` has left the level on the side
/// that `direction` points to.
pub fn is_offscreen(position: &Position, direction: Direction) -> (r: bool)
    ensures
        r == spec_is_offscreen(*position, direction),
{
    let max_abs: i32 = match direction {
        Direction::Left | Direction::Right => MAX_X_I32,
        Direction::Up | Direction::Down => MAX_Y_I32,
    };
    let current_value: i32 = match direction {
        Direction::Left | Direction::Right => position.x,
        Direction::Up | Direction::Down => position.y,
    };
    let motion_positive: bool = match direction {
        Direction::Right | Direction::Up => true,
        Direction::Left | Direction::Down => false,
    };
    // past the bound in the expected dimension
    (current_value > max_abs || current_value < -max_abs)
    // and moving farther outside it
     && (current_value > 0) == motion_positive
}

/// The `(x, y)` offset that carries an entity which left the level along
/// `direction` back to the opposite edge: one level span against `direction`.
pub fn get_offset_for_loop(direction: Direction) -> (v: (i32, i32))
    ensures
        v.0 == -direction.dx() * LEVEL_SPAN_X_I32,
        v.1 == -direction.dy() * LEVEL_SPAN_Y_I32,
{
    match direction {
        Direction::Up => (0, -LEVEL_SPAN_Y_I32),
        Direction::Down => (0, LEVEL_SPAN_Y_I32),
        Direction::Right => (-LEVEL_SPAN_X_I32, 0),
        Direction::Left => (LEVEL_SPAN_X_I32, 0),
    }
}

/// A drift of `speed` pixel-units per tick along `direction`.
#[derive(Clone, Copy, Debug, PartialEq, Eq, Structural)]
pub struct ConstantMotor {
    pub speed: i32,
    pub direction: Direction,
}

impl ConstantMotor {
    /// `position` after one drive, before any wrap.
    pub open spec fn driven(self, position: Position) -> Position {
        position.moved(self.speed as int, self.direction)
    }

    /// `position` after one drive, carried to the opposite edge if the drive
    /// took it off the level.
    pub open spec fn driven_and_looped(self, position: Position) -> Position {
        let driven = self.driven(position);
        if spec_is_offscreen(driven, self.direction) {
            Position {
                x: clamp_coord(driven.x - self.direction.dx() * LEVEL_SPAN_X_I32) as i32,
                y: clamp_coord(driven.y - self.direction.dy() * LEVEL_SPAN_Y_I32) as i32,
                direction: driven.direction,
            }
        } else {
            driven
        }
    }

    pub fn new(speed: i32, direction: Direction) -> (m: ConstantMotor)
        ensures
            m == (ConstantMotor { speed, direction }),
    {
        ConstantMotor { speed, direction }
    }

    /// Drives `position` and tells whether that took it off the level.
    pub fn drive_offscreen(&self, position: &mut Position) -> (offscreen: bool)
        ensures
            *final(position) == self.driven(*old(position)),
            offscreen == spec_is_offscreen(self.driven(*old(position)), self.direction),
    {
        position.move_direction(self.speed, self.direction);
        is_offscreen(position, self.direction)
    }

    /// Drives `position`; one that leaves the level comes back in at the
    /// opposite edge.
    pub fn drive_and_loop(&self, position: &mut Position)
        ensures
            *final(position) == self.driven_and_looped(*old(position)),
    {
        if self.drive_offscreen(position) {
            let delta = get_offset_for_loop(self.direction);
            position.x = offset_coord(position.x, delta.0, true);
            position.y = offset_coord(position.y, delta.1, true);
        }
    }
}

/// A leap in progress, or none.
#[derive(Clone, Copy, Debug, PartialEq, Eq, Structural)]
pub struct StepMotor {
    /// `None` while the motor is idle; `Some(n)` after `n` drives of a leap.
    pub step: Option<u32>,
}

impl StepMotor {
    /// A leap never holds `MOTION_STEPS` drives or more. Every operation
    /// below leaves the motor so, whatever it started from.
    pub open spec fn wf(&self) -> bool {
        self.step matches Some(n) ==> n < MOTION_STEPS
    }

    /// The step counter after one drive: a leap that has had its
    /// `MOTION_STEPS` drives is over.
    pub open spec fn spec_next_step(step: Option<u32>) -> Option<u32> {
        match step {
            Some(n) => if n + 1 < MOTION_STEPS {
                Some((n + 1) as u32)
            } else {
                None
            },
            None => None,
        }
    }

    /// This motor after one drive.
    pub open spec fn driven(self) -> StepMotor {
        StepMotor { step: Self::spec_next_step(self.step) }
    }

    pub fn new() -> (m: StepMotor)
        ensures
            m.step is None,
    {
        StepMotor { step: None }
    }

    pub fn is_running(&self) -> (running: bool)
        ensures
            running == self.step.is_some(),
    {
        self.step.is_some()
    }

    /// Turns `position` to face `direction` and begins a leap.
    pub fn start(&mut self, position: &mut Position, direction: Direction)
        ensures
            final(self).step == Some(0u32),
            *final(position) == (Position { direction, ..*old(position) }),
    {
        position.direction = direction;
        self.step = Some(0);
    }

    pub fn get_sprite_index(&self) -> (index: usize)
        ensures
            index == match self.step {
                Some(n) => n as int % 2,
                None => 0,
            },
    {
        match self.step {
            Some(step) => (step % 2) as usize,
            None => 0,
        }
    }

    /// One drive of a running motor: `position` moves `STEP_SPEED` forward
    /// and the leap ends once it has had `MOTION_STEPS` drives. An idle motor
    /// does nothing.
    pub fn drive(&mut self, position: &mut Position)
        ensures
            *final(self) == old(self).driven(),
            final(self).wf(),
            old(self).step.is_some() ==> *final(position) == old(position).moved(
                STEP_SPEED as int,
                old(position).direction,
            ),
            old(self).step.is_none() ==> *final(position) == *old(position),
    {
        if let Some(step) = self.step {
            position.move_forward(STEP_SPEED);
            self.step = if step < MOTION_STEPS - 1 {
                Some(step + 1)
            } else {
                None
            };
        }
    }

    pub fn reset(&mut self)
        ensures
            final(self).step is None,
    {
        self.step = None;
    }

    /// Overwrites this motor with `other`.
    pub fn mirror(&mut self, other: &StepMotor)
        ensures
            *final(self) == *other,
    {
        self.step = other.step;
    }
}

/// `motor` after `n` drives.
pub open spec fn spec_driven_times(motor: StepMotor, n: nat) -> StepMotor
    decreases n,
{
    if n == 0 {
        motor
    } else {
        spec_driven_times(motor, (n - 1) as nat).driven()
    }
}

/// A leap takes exactly `MOTION_STEPS` drives: a motor that has just been
/// started is still running after any smaller number of drives, with as
/// many steps counted, and is idle after the last.
pub proof fn lemma_leap_takes_motion_steps(n: nat)
    requires
        n <= MOTION_STEPS,
    ensures
        spec_driven_times(StepMotor { step: Some(0) }, n).step == if n < MOTION_STEPS {
            Some(n as u32)
        } else {
            None
        },
    decreases n,
{
    if n > 0 {
        lemma_leap_takes_motion_steps((n - 1) as nat);
    }
}

/// An idle motor stays idle, however often it is driven.
pub proof fn lemma_idle_stays_idle(n: nat)
    ensures
        spec_driven_times(StepMotor { step: None }, n).step is None,
    decreases n,
{
    if n > 0 {
        lemma_idle_stays_idle((n - 1) as nat);
    }
}

/// How far `position` lies along `direction`: the coordinate on the axis
/// of `direction`, counted the way `direction` points.
pub open spec fn spec_along(position: Position, direction: Direction) -> int {
    match direction {
        Direction::Right => position.x as int,
        Direction::Left => -position.x,
        Direction::Up => position.y as int,
        Direction::Down => -position.y,
    }
}

/// The coordinate of `position` on the other axis than that of `direction`.
pub open spec fn spec_across(position: Position, direction: Direction) -> int {
    if direction.is_horizontal() {
        position.y as int
    } else {
        position.x as int
    }
}

/// The stretch of one level span in which a drifting entity stays: from
/// one span short of the bound that `direction` points to, up to that
/// bound.
pub open spec fn spec_in_loop_window(position: Position, direction: Direction) -> bool {
    MAX_X_I32 - LEVEL_SPAN_X_I32 < spec_along(position, direction) <= MAX_X_I32
}

/// `position` after `n` drives with wraparound.
pub open spec fn spec_looped_times(motor: ConstantMotor, position: Position, n: nat) -> Position
    decreases n,
{
    if n == 0 {
        position
    } else {
        motor.driven_and_looped(spec_looped_times(motor, position, (n - 1) as nat))
    }
}

/// One drive with wraparound, seen along the motor's direction: the entity
/// advances by the speed and, where that takes it past the bound, comes
/// back one level span behind. It stays in the window, on its line, and
/// keeps its facing.
pub proof fn lemma_loop_step(motor: ConstantMotor, position: Position)
    requires
        0 < motor.speed <= LEVEL_SPAN_X_I32,
        spec_in_loop_window(position, motor.direction),
    ensures
        spec_in_loop_window(motor.driven_and_looped(position), motor.direction),
        spec_along(motor.driven_and_looped(position), motor.direction) == if spec_along(
            position,
            motor.direction,
        ) + motor.speed > MAX_X_I32 {
            spec_along(position, motor.direction) + motor.speed - LEVEL_SPAN_X_I32
        } else {
            spec_along(position, motor.direction) + motor.speed
        },
        spec_across(motor.driven_and_looped(position), motor.direction) == spec_across(
            position,
            motor.direction,
        ),
        motor.driven_and_looped(position).direction == position.direction,
{
}

/// After `n` drives with wraparound the entity has advanced by `n` times
/// the speed, less one level span for each of the `wraps` times it came
/// round.
pub proof fn lemma_loop_progress(motor: ConstantMotor, position: Position, n: nat) -> (wraps: int)
    requires
        0 < motor.speed <= LEVEL_SPAN_X_I32,
        spec_in_loop_window(position, motor.direction),
    ensures
        spec_in_loop_window(spec_looped_times(motor, position, n), motor.direction),
        spec_along(spec_looped_times(motor, position, n), motor.direction) == spec_along(
            position,
            motor.direction,
        ) + n * motor.speed - wraps * LEVEL_SPAN_X_I32,
        spec_across(spec_looped_times(motor, position, n), motor.direction) == spec_across(
            position,
            motor.direction,
        ),
        spec_looped_times(motor, position, n).direction == position.direction,
    decreases n,
{
    if n == 0 {
        assert(0 * motor.speed == 0) by (nonlinear_arith);
        0
    } else {
        let before = spec_looped_times(motor, position, (n - 1) as nat);
        let wraps = lemma_loop_progress(motor, position, (n - 1) as nat);
        lemma_loop_step(motor, before);
        assert(n * motor.speed == (n - 1) * motor.speed + motor.speed) by (nonlinear_arith);
        if spec_along(before, motor.direction) + motor.speed > MAX_X_I32 {
            wraps + 1
        } else {
            wraps
        }
    }
}

/// Wraparound round trip: an entity that drifts, in `n` drives, a whole
/// number of level spans in all is back exactly where it began.
pub proof fn lemma_loop_round_trip(motor: ConstantMotor, position: Position, n: nat, spans: nat)
    requires
        0 < motor.speed <= LEVEL_SPAN_X_I32,
        spec_in_loop_window(position, motor.direction),
        n * motor.speed == spans * LEVEL_SPAN_X_I32,
    ensures
        spec_looped_times(motor, position, n) == position,
{
    let wraps = lemma_loop_progress(motor, position, n);
    let after = spec_looped_times(motor, position, n);
    assert(spec_along(after, motor.direction) - spec_along(position, motor.direction) == (spans
        - wraps) * LEVEL_SPAN_X_I32) by (nonlinear_arith)
        requires
            spec_along(after, motor.direction) == spec_along(position, motor.direction) + n
                * motor.speed - wraps * LEVEL_SPAN_X_I32,
            n * motor.speed == spans * LEVEL_SPAN_X_I32,
    ;
    assert(spans - wraps == 0) by (nonlinear_arith)
        requires
            -LEVEL_SPAN_X_I32 < (spans - wraps) * LEVEL_SPAN_X_I32 < LEVEL_SPAN_X_I32,
            LEVEL_SPAN_X_I32 == 640,
    ;
}

} // verus!
