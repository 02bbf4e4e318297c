//! The entity table: every entity of a session with the components it
//! carries, and the levels that have been spawned.

use vstd::prelude::*;
use crate::components::{
    Car, ConstantMotor, Controlled, Crab, Knockout, Level, LevelRow, Position, Raft, Score,
    StepMotor,
};
use crate::inputs::EntityId;

verus! {

/// On a prediction: the source entity that it shadows.
#[derive(Clone, Copy, Debug, PartialEq, Eq, Structural)]
pub struct PredictionOf(pub EntityId);

/// On a source: the prediction entity that shadows it.
#[derive(Clone, Copy, Debug, PartialEq, Eq, Structural)]
pub struct SourceOf(pub EntityId);

/// One row of the entity table: each component is there or it is not.
#[derive(Clone, Copy, Debug, PartialEq, Eq, Structural)]
pub struct EntityRecord {
    pub crab: Option<Crab>,
    pub car: Option<Car>,
    pub raft: Option<Raft>,
    pub controlled: Option<Controlled>,
    pub knockout: Option<Knockout>,
    pub position: Option<Position>,
    pub step_motor: Option<StepMotor>,
    pub constant_motor: Option<ConstantMotor>,
    pub score: Option<Score>,
    pub prediction_of: Option<PredictionOf>,
    pub source_of: Option<SourceOf>,
}

impl EntityRecord {
    /// The record without any component.
    pub open spec fn spec_empty() -> EntityRecord {
        EntityRecord {
            crab: None,
            car: None,
            raft: None,
            controlled: None,
            knockout: None,
            position: None,
            step_motor: None,
            constant_motor: None,
            score: None,
            prediction_of: None,
            source_of: None,
        }
    }

    /// Driven by the simulation and not knocked out.
    pub open spec fn is_active(self) -> bool {
        self.controlled.is_some() && self.knockout.is_none()
    }

    /// An active entity that is a player.
    pub open spec fn is_active_player(self) -> bool {
        self.crab.is_some() && self.is_active()
    }

    /// What a duplicate of this entity starts with: the components that
    /// describe the entity itself. The `Controlled` marker and the links
    /// between source and prediction belong to one entity and are not
    /// copied.
    pub open spec fn spec_replica(self) -> EntityRecord {
        EntityRecord { controlled: None, prediction_of: None, source_of: None, ..self }
    }

    #[verifier::when_used_as_spec(spec_empty)]
    pub fn empty() -> (record: EntityRecord)
        ensures
            record == Self::spec_empty(),
    {
        EntityRecord {
            crab: None,
            car: None,
            raft: None,
            controlled: None,
            knockout: None,
            position: None,
            step_motor: None,
            constant_motor: None,
            score: None,
            prediction_of: None,
            source_of: None,
        }
    }

    /// A car with its position and motor, as the level hands them out.
    pub fn car(bundle: (Car, Position, ConstantMotor)) -> (record: EntityRecord)
        ensures
            record == (EntityRecord {
                car: Some(bundle.0),
                position: Some(bundle.1),
                constant_motor: Some(bundle.2),
                ..Self::spec_empty()
            }),
    {
        let mut record = EntityRecord::empty();
        record.car = Some(bundle.0);
        record.position = Some(bundle.1);
        record.constant_motor = Some(bundle.2);
        record
    }

    /// A raft with its position and motor, as the level hands them out.
    pub fn raft(bundle: (Raft, Position, ConstantMotor)) -> (record: EntityRecord)
        ensures
            record == (EntityRecord {
                raft: Some(bundle.0),
                position: Some(bundle.1),
                constant_motor: Some(bundle.2),
                ..Self::spec_empty()
            }),
    {
        let mut record = EntityRecord::empty();
        record.raft = Some(bundle.0);
        record.position = Some(bundle.1);
        record.constant_motor = Some(bundle.2);
        record
    }

    #[verifier::when_used_as_spec(spec_replica)]
    pub fn replica(self) -> (record: EntityRecord)
        ensures
            record == self.spec_replica(),
    {
        let mut record = self;
        record.controlled = None;
        record.prediction_of = None;
        record.source_of = None;
        record
    }
}

/// The mathematical content of a [`World`].
#[verifier::ext_equal]
pub struct WorldView {
    pub entities: Seq<EntityRecord>,
    pub levels: Seq<Seq<LevelRow>>,
}

impl WorldView {
    /// The one level of the world. A world with no level, or with several,
    /// has none: the passes that need it then leave everything as it is.
    pub open spec fn single_level(self) -> Option<Seq<LevelRow>> {
        if self.levels.len() == 1 {
            Some(self.levels[0])
        } else {
            None
        }
    }

    /// The record of `entity`, or `None` for an entity that was never
    /// spawned.
    pub open spec fn get(self, entity: EntityId) -> Option<EntityRecord> {
        if entity < self.entities.len() {
            Some(self.entities[entity as int])
        } else {
            None
        }
    }

    /// This world with other records in its table.
    pub open spec fn with_entities(self, entities: Seq<EntityRecord>) -> WorldView {
        WorldView { entities, levels: self.levels }
    }
}

/// The entity table. An entity's id is its index in `entities`.
pub struct World {
    pub entities: Vec<EntityRecord>,
    pub levels: Vec<Level>,
}

impl View for World {
    type V = WorldView;

    open spec fn view(&self) -> WorldView {
        WorldView {
            entities: self.entities@,
            levels: Seq::new(self.levels@.len(), |i: int| self.levels@[i]@),
        }
    }
}

impl World {
    pub fn new() -> (world: World)
        ensures
            world@.entities.len() == 0,
            world@.levels.len() == 0,
    {
        World { entities: Vec::new(), levels: Vec::new() }
    }

    /// The number of entities ever spawned.
    pub fn len(&self) -> (n: usize)
        ensures
            n == self@.entities.len(),
    {
        self.entities.len()
    }

    /// Adds an entity with the components of `record` and returns its id.
    pub fn spawn(&mut self, record: EntityRecord) -> (entity: EntityId)
        ensures
            entity == old(self)@.entities.len(),
            final(self)@ == old(self)@.with_entities(old(self)@.entities.push(record)),
    {
        let entity = self.entities.len() as u64;
        self.entities.push(record);
        proof {
            assert(self@.levels =~= old(self)@.levels);
        }
        entity
    }

    /// Adds a level.
    pub fn spawn_level(&mut self, level: Level)
        ensures
            final(self)@ == (WorldView {
                entities: old(self)@.entities,
                levels: old(self)@.levels.push(level@),
            }),
    {
        self.levels.push(level);
        proof {
            assert(self@.levels =~= old(self)@.levels.push(level@));
        }
    }

    /// The record of `entity`, or `None` for an entity that was never
    /// spawned.
    pub fn get(&self, entity: EntityId) -> (record: Option<EntityRecord>)
        ensures
            record == self@.get(entity),
    {
        if entity < self.entities.len() as u64 {
            Some(self.entities[entity as usize])
        } else {
            None
        }
    }

    /// Replaces the record of `entity`. Tells whether there is such an
    /// entity; if not, nothing changes.
    pub fn set(&mut self, entity: EntityId, record: EntityRecord) -> (found: bool)
        ensures
            found == (entity < old(self)@.entities.len()),
            found ==> final(self)@ == old(self)@.with_entities(
                old(self)@.entities.update(entity as int, record),
            ),
            !found ==> final(self)@ == old(self)@,
    {
        if entity < self.entities.len() as u64 {
            self.entities.set(entity as usize, record);
            proof {
                assert(self@.levels =~= old(self)@.levels);
            }
            true
        } else {
            false
        }
    }

    /// Strips `entity` of all its components, so that no pass or query
    /// finds it any more. Ids of other entities stay as they are.
    pub fn despawn(&mut self, entity: EntityId) -> (found: bool)
        ensures
            found == (entity < old(self)@.entities.len()),
            found ==> final(self)@ == old(self)@.with_entities(
                old(self)@.entities.update(entity as int, EntityRecord::spec_empty()),
            ),
            !found ==> final(self)@ == old(self)@,
    {
        self.set(entity, EntityRecord::empty())
    }
}

} // verus!
