//! The client's side of a tick: what was pressed goes to the server, and,
//! turned to the predictions, into the log and into the local simulation.

use vstd::prelude::*;
use crate::history::{
    spec_can_insert, spec_entries_of, spec_logged, Entry, Tick, TickHistory,
};
use crate::inputs::{lists_contents, no_actions, EntityActionMap, EntityId, InputAction};
use crate::messages::InputMessage;
use crate::tick::{spec_action_of, TickActions};
use crate::world::{EntityRecord, World};

verus! {

/// The actions of `inputs`, turned from the sources with ids below `upto`
/// to their predictions. An action for an entity that has no prediction is
/// left out. Should two sources name one prediction, the one with the
/// higher id has the last word.
pub open spec fn spec_predicted_actions(
    entities: Seq<EntityRecord>,
    inputs: Map<EntityId, InputAction>,
    upto: int,
) -> Map<EntityId, InputAction>
    decreases upto,
{
    if upto <= 0 {
        Map::empty()
    } else {
        let so_far = spec_predicted_actions(entities, inputs, upto - 1);
        match (spec_action_of(inputs, upto - 1), entities[upto - 1].source_of) {
            (Some(action), Some(link)) => so_far.insert(link.0, action),
            _ => so_far,
        }
    }
}

/// The actions of `inputs`, turned from sources to their predictions.
pub fn predicted_actions(world: &World, inputs: &EntityActionMap) -> (predicted: EntityActionMap)
    ensures
        predicted@ == spec_predicted_actions(
            world@.entities,
            inputs@,
            world@.entities.len() as int,
        ),
{
    let mut predicted = EntityActionMap::new();
    let n = world.entities.len();
    let mut i: usize = 0;
    while i < n
        invariant
            i <= n,
            n == world@.entities.len(),
            predicted@ == spec_predicted_actions(world@.entities, inputs@, i as int),
        decreases n - i,
    {
        if let Some(action) = inputs.get(i as u64) {
            if let Some(link) = world.entities[i].source_of {
                predicted.insert(link.0, action);
            }
        }
        i += 1;
    }
    predicted
}

/// The actions applied at the tick with index `index` of a batch:
/// `predicted` at the first tick, none at any later one, since the first
/// tick takes all that was queued.
pub open spec fn spec_actions_at(index: int, predicted: Map<EntityId, InputAction>) -> Map<
    EntityId,
    InputAction,
> {
    if index == 0 {
        predicted
    } else {
        no_actions()
    }
}

/// The log after the ticks of a batch have been offered to it, first tick
/// first.
pub open spec fn spec_log_after(
    entries: Seq<Entry>,
    capacity: nat,
    ticks: Seq<Tick>,
    predicted: Map<EntityId, InputAction>,
) -> Seq<Entry>
    decreases ticks.len(),
{
    if ticks.len() == 0 {
        entries
    } else {
        spec_logged(
            spec_log_after(entries, capacity, ticks.drop_last(), predicted),
            capacity,
            ticks.last(),
            spec_actions_at(ticks.len() - 1, predicted),
        )
    }
}

/// The ticks of a batch that the log took, each with its actions, first
/// tick first.
pub open spec fn spec_prepared(
    entries: Seq<Entry>,
    capacity: nat,
    ticks: Seq<Tick>,
    predicted: Map<EntityId, InputAction>,
) -> Seq<Entry>
    decreases ticks.len(),
{
    if ticks.len() == 0 {
        Seq::empty()
    } else {
        let prepared = spec_prepared(entries, capacity, ticks.drop_last(), predicted);
        if spec_can_insert(
            spec_log_after(entries, capacity, ticks.drop_last(), predicted),
            ticks.last(),
        ) {
            prepared.push((ticks.last(), spec_actions_at(ticks.len() - 1, predicted)))
        } else {
            prepared
        }
    }
}

/// The entity and the action that each of `messages` carries.
pub open spec fn spec_addressed(messages: Seq<(Tick, InputMessage)>) -> Seq<
    (EntityId, InputAction),
> {
    Seq::new(
        messages.len(),
        |i: int| (messages[i].1.entity.unwrap(), messages[i].1.action.unwrap()),
    )
}

/// What [`send_and_prepare_inputs`] hands back.
pub struct PreparedInputs {
    /// The messages to send to the server, each with the tick it is for.
    pub messages: Vec<(Tick, InputMessage)>,
    /// The ticks to simulate, each with the actions of the predictions.
    pub ticks: Vec<TickActions>,
}

/// Handles one batch of client ticks. With no tick nothing happens and the
/// queue keeps what it holds. Otherwise the queue is emptied: each action
/// in it becomes a message to the server for the first tick of the batch,
/// and, turned to the prediction of its entity, an action of that tick.
/// Each tick is offered to the log, and those that the log takes are
/// handed out to be simulated, in their order. A tick that is not newer
/// than the newest in the log is dropped.
pub fn send_and_prepare_inputs(
    client_ticks: &Vec<Tick>,
    tick_history: &mut TickHistory,
    world: &World,
    player_inputs: &mut EntityActionMap,
) -> (prepared: PreparedInputs)
    requires
        old(tick_history).wf(),
    ensures
        final(tick_history).wf(),
        final(tick_history).spec_capacity() == old(tick_history).spec_capacity(),
        client_ticks@.len() == 0 ==> {
            &&& final(player_inputs)@ == old(player_inputs)@
            &&& final(tick_history)@ == old(tick_history)@
            &&& prepared.messages@.len() == 0
            &&& prepared.ticks@.len() == 0
        },
        client_ticks@.len() > 0 ==> {
            let predicted = spec_predicted_actions(
                world@.entities,
                old(player_inputs)@,
                world@.entities.len() as int,
            );
            &&& final(player_inputs)@ == no_actions()
            &&& final(tick_history)@ == spec_log_after(
                old(tick_history)@,
                old(tick_history).spec_capacity(),
                client_ticks@,
                predicted,
            )
            &&& spec_entries_of(prepared.ticks@) == spec_prepared(
                old(tick_history)@,
                old(tick_history).spec_capacity(),
                client_ticks@,
                predicted,
            )
            &&& lists_contents(spec_addressed(prepared.messages@), old(player_inputs)@)
            &&& forall|i: int|
                0 <= i < prepared.messages@.len() ==> {
                    &&& (#[trigger] prepared.messages@[i]).0 == client_ticks@[0]
                    &&& prepared.messages@[i].1.entity.is_some()
                    &&& prepared.messages@[i].1.action.is_some()
                }
        },
{
    let mut messages: Vec<(Tick, InputMessage)> = Vec::new();
    let mut ticks: Vec<TickActions> = Vec::new();
    let n = client_ticks.len();
    if n == 0 {
        return PreparedInputs { messages, ticks };
    }
    let first_tick = client_ticks[0];
    let mut current = predicted_actions(world, player_inputs);
    let ghost predicted = current@;
    let ghost capacity = tick_history.spec_capacity();
    let queued = player_inputs.drain();
    let mut k: usize = 0;
    while k < queued.len()
        invariant
            k <= queued@.len(),
            messages@.len() == k,
            forall|i: int|
                0 <= i < k ==> {
                    &&& (#[trigger] messages@[i]).0 == first_tick
                    &&& messages@[i].1.entity == Some(queued@[i].0)
                    &&& messages@[i].1.action == Some(queued@[i].1)
                },
        decreases queued@.len() - k,
    {
        let (entity, action) = queued[k];
        // each command goes to the server
        let mut input_message = InputMessage::new(Some(action));
        input_message.entity = Some(entity);
        messages.push((first_tick, input_message));
        k += 1;
    }
    proof {
        assert(spec_addressed(messages@) =~= queued@);
    }
    let mut i: usize = 0;
    while i < n
        invariant
            i <= n,
            n == client_ticks@.len(),
            tick_history.wf(),
            tick_history.spec_capacity() == capacity,
            current@ == spec_actions_at(i as int, predicted),
            tick_history@ == spec_log_after(
                old(tick_history)@,
                capacity,
                client_ticks@.take(i as int),
                predicted,
            ),
            spec_entries_of(ticks@) == spec_prepared(
                old(tick_history)@,
                capacity,
                client_ticks@.take(i as int),
                predicted,
            ),
        decreases n - i,
    {
        let client_tick = client_ticks[i];
        proof {
            assert(client_ticks@.take(i + 1).drop_last() =~= client_ticks@.take(i as int));
        }
        let logged = current.clone();
        let mut predicted_actions = EntityActionMap::new();
        core::mem::swap(&mut predicted_actions, &mut current);
        let ghost handed = spec_entries_of(ticks@);
        if tick_history.insert(client_tick, logged) {
            // the tick is simulated as well
            ticks.push((client_tick, predicted_actions));
            proof {
                assert(spec_entries_of(ticks@) =~= handed.push(
                    (client_tick, spec_actions_at(i as int, predicted)),
                ));
            }
        }
        i += 1;
    }
    proof {
        assert(client_ticks@.take(n as int) =~= client_ticks@);
    }
    PreparedInputs { messages, ticks }
}

} // verus!
