//! What a client does when the server shows it a new entity: it gives the
//! entity a prediction, a local twin that the simulation drives.

use vstd::prelude::*;
use crate::components::Controlled;
use crate::inputs::EntityId;
use crate::messages::PlayerAssignmentMessage;
use crate::world::{EntityRecord, PredictionOf, SourceOf, World, WorldView};

verus! {

/// The prediction that a source with the record `source` gets: a duplicate
/// of the source, controlled, that names `entity` as its source.
pub open spec fn spec_prediction_of(source: EntityRecord, entity: EntityId) -> EntityRecord {
    EntityRecord {
        prediction_of: Some(PredictionOf(entity)),
        controlled: Some(Controlled),
        ..source.spec_replica()
    }
}

/// The world after `source` has been given a prediction: the prediction is
/// the newest entity, and the source names it. Both links are made
/// together. A world that has no entity `source` stays as it is.
pub open spec fn spec_link(world: WorldView, source: EntityId) -> WorldView {
    match world.get(source) {
        Some(record) => world.with_entities(
            world.entities.update(
                source as int,
                EntityRecord {
                    source_of: Some(SourceOf(world.entities.len() as u64)),
                    ..record
                },
            ).push(spec_prediction_of(record, source)),
        ),
        None => world,
    }
}

/// The world after each of `sources` has been given a prediction, first
/// entry first.
pub open spec fn spec_link_all(world: WorldView, sources: Seq<EntityId>) -> WorldView
    decreases sources.len(),
{
    if sources.len() == 0 {
        world
    } else {
        spec_link(spec_link_all(world, sources.drop_last()), sources.last())
    }
}

/// The entities that `assignments` name.
pub open spec fn spec_assigned(assignments: Seq<PlayerAssignmentMessage>) -> Seq<EntityId>
    decreases assignments.len(),
{
    if assignments.len() == 0 {
        Seq::empty()
    } else {
        match assignments.last().entity {
            Some(entity) => spec_assigned(assignments.drop_last()).push(entity),
            None => spec_assigned(assignments.drop_last()),
        }
    }
}

/// Gives `source` a prediction and returns it, or `None` if there is no
/// entity `source`.
pub fn link_prediction(world: &mut World, source: EntityId) -> (prediction: Option<EntityId>)
    ensures
        final(world)@ == spec_link(old(world)@, source),
        prediction == if source < old(world)@.entities.len() {
            Some(old(world)@.entities.len() as u64)
        } else {
            None
        },
{
    match world.get(source) {
        Some(record) => {
            // a new entity with a copy of all that describes the source
            let mut twin = record.replica();
            twin.prediction_of = Some(PredictionOf(source));
            twin.controlled = Some(Controlled);
            let prediction_entity = world.spawn(twin);
            // the source itself only learns of its prediction
            let mut linked = record;
            linked.source_of = Some(SourceOf(prediction_entity));
            world.set(source, linked);
            proof {
                assert(world@.entities =~= spec_link(old(world)@, source).entities);
            }
            Some(prediction_entity)
        },
        None => None,
    }
}

fn link_all(world: &mut World, sources: &Vec<EntityId>)
    ensures
        final(world)@ == spec_link_all(old(world)@, sources@),
{
    let n = sources.len();
    let mut i: usize = 0;
    while i < n
        invariant
            i <= n,
            n == sources@.len(),
            world@ == spec_link_all(old(world)@, sources@.take(i as int)),
        decreases n - i,
    {
        proof {
            assert(sources@.take(i + 1).drop_last() =~= sources@.take(i as int));
        }
        link_prediction(world, sources[i]);
        i += 1;
    }
    proof {
        assert(sources@.take(n as int) =~= sources@);
    }
}

/// The server has told this client which entities it controls: each gets
/// its prediction. A message that names no entity is passed over.
pub fn receive_entity_assignment_message(
    assignments: &Vec<PlayerAssignmentMessage>,
    world: &mut World,
)
    ensures
        final(world)@ == spec_link_all(old(world)@, spec_assigned(assignments@)),
{
    let n = assignments.len();
    let mut i: usize = 0;
    while i < n
        invariant
            i <= n,
            n == assignments@.len(),
            world@ == spec_link_all(old(world)@, spec_assigned(assignments@.take(i as int))),
        decreases n - i,
    {
        proof {
            assert(assignments@.take(i + 1).drop_last() =~= assignments@.take(i as int));
            let sofar = spec_assigned(assignments@.take(i as int));
            if assignments@[i as int].entity is Some {
                assert(sofar.push(assignments@[i as int].entity.unwrap()).drop_last() =~= sofar);
            }
        }
        if let Some(entity) = assignments[i].entity {
            link_prediction(world, entity);
        }
        i += 1;
    }
    proof {
        assert(assignments@.take(n as int) =~= assignments@);
    }
}

/// The server has shown this client new rafts and new cars: each gets its
/// prediction, the rafts first.
pub fn receive_insert_component_events(rafts: &Vec<EntityId>, cars: &Vec<EntityId>, world: &mut World)
    ensures
        final(world)@ == spec_link_all(spec_link_all(old(world)@, rafts@), cars@),
{
    link_all(world, rafts);
    link_all(world, cars);
}

} // verus!
