//! What a player starts with.

use vstd::prelude::*;
use crate::components::{
    spec_tile_centre, Controlled, Crab, Direction, Position, Score, StepMotor, TileRow,
};
use crate::constants::LEVEL_HEIGHT_I32;
use crate::world::EntityRecord;

verus! {

/// The components of a new player.
#[derive(Clone, Copy, Debug, PartialEq, Eq, Structural)]
pub struct CrabBundle {
    pub crab: Crab,
    pub motor: StepMotor,
    pub position: Position,
    pub score: Score,
}

impl CrabBundle {
    /// The record of an entity that carries this bundle and nothing else.
    pub open spec fn spec_record(self) -> EntityRecord {
        EntityRecord {
            crab: Some(self.crab),
            step_motor: Some(self.motor),
            position: Some(self.position),
            score: Some(self.score),
            ..EntityRecord::spec_empty()
        }
    }

    /// A player in the middle of the bottom row, facing up, idle, with no
    /// score yet.
    pub open spec fn spec_new() -> CrabBundle {
        CrabBundle {
            crab: Crab,
            motor: StepMotor { step: None },
            position: Position {
                x: 0,
                y: spec_tile_centre(0, LEVEL_HEIGHT_I32 as int) as i32,
                direction: Direction::Up,
            },
            score: Score { value: 0 },
        }
    }

    /// A player in the middle of the bottom row, facing up, idle, with no
    /// score yet.
    #[verifier::when_used_as_spec(spec_new)]
    pub fn new() -> (bundle: CrabBundle)
        ensures
            bundle == Self::spec_new(),
    {
        CrabBundle {
            crab: Crab,
            motor: StepMotor::new(),
            position: Position::new(0, i32::from(TileRow(0)), Direction::Up),
            score: Score::new(),
        }
    }

    /// The record of an entity that carries this bundle and nothing else.
    #[verifier::when_used_as_spec(spec_record)]
    pub fn record(self) -> (record: EntityRecord)
        ensures
            record == self.spec_record(),
    {
        let mut record = EntityRecord::empty();
        record.crab = Some(self.crab);
        record.step_motor = Some(self.motor);
        record.position = Some(self.position);
        record.score = Some(self.score);
        record
    }
}

/// `record` with the marker that puts it under the simulation.
pub fn controlled(record: EntityRecord) -> (r: EntityRecord)
    ensures
        r == (EntityRecord { controlled: Some(Controlled), ..record }),
{
    let mut r = record;
    r.controlled = Some(Controlled);
    r
}

} // verus!
