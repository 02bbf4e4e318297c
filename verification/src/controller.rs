//! From what a player holds down to what its entity is asked to do.

use vstd::prelude::*;
use crate::inputs::{EntityActionMap, EntityId, InputAction};
use crate::tick::spec_apply_input;
use crate::world::{EntityRecord, World, WorldView};

verus! {

/// What a controller can ask for.
#[derive(Clone, Copy, Debug, PartialEq, Eq, Structural)]
pub enum Action {
    Up,
    Down,
    Left,
    Right,
    Menu,
}

/// Which of the four directions a controller holds down.
#[derive(Clone, Copy, Debug, PartialEq, Eq, Structural)]
pub struct PlayerActionState {
    pub up: bool,
    pub down: bool,
    pub left: bool,
    pub right: bool,
}

impl PlayerActionState {
    pub open spec fn spec_pressed(self, action: Action) -> bool {
        match action {
            Action::Up => self.up,
            Action::Down => self.down,
            Action::Left => self.left,
            Action::Right => self.right,
            Action::Menu => false,
        }
    }

    /// Whether `action` is held down. The menu is no direction and never
    /// counts as held.
    #[verifier::when_used_as_spec(spec_pressed)]
    pub fn pressed(self, action: Action) -> (pressed: bool)
        ensures
            pressed == self.spec_pressed(action),
    {
        match action {
            Action::Up => self.up,
            Action::Down => self.down,
            Action::Left => self.left,
            Action::Right => self.right,
            Action::Menu => false,
        }
    }
}

/// The one action that a controller stands for: of the directions held
/// down, up goes before down, down before left, left before right. With
/// none held down there is no action.
pub open spec fn spec_get_action(action: PlayerActionState) -> Option<InputAction> {
    if action.up {
        Some(InputAction::Up)
    } else if action.down {
        Some(InputAction::Down)
    } else if action.left {
        Some(InputAction::Left)
    } else if action.right {
        Some(InputAction::Right)
    } else {
        None
    }
}

/// The one action that a controller stands for.
pub fn get_action(action: &PlayerActionState) -> (input: Option<InputAction>)
    ensures
        input == spec_get_action(*action),
{
    if action.pressed(Action::Up) {
        Some(InputAction::Up)
    } else if action.pressed(Action::Down) {
        Some(InputAction::Down)
    } else if action.pressed(Action::Left) {
        Some(InputAction::Left)
    } else if action.pressed(Action::Right) {
        Some(InputAction::Right)
    } else {
        None
    }
}

/// Whether the world has an entity `entity` that is not knocked out.
pub open spec fn spec_can_act(world: WorldView, entity: EntityId) -> bool {
    world.get(entity) matches Some(record) && record.knockout.is_none()
}

/// The queue once the controllers with indices below `upto` have been read:
/// the action of each controller whose entity is there and not knocked out
/// is queued for that entity, a later controller of the same entity
/// overwriting an earlier one.
pub open spec fn spec_queue_inputs(
    world: WorldView,
    controllers: Seq<(EntityId, PlayerActionState)>,
    queue: Map<EntityId, InputAction>,
    upto: int,
) -> Map<EntityId, InputAction>
    decreases upto,
{
    if upto <= 0 {
        queue
    } else {
        let so_far = spec_queue_inputs(world, controllers, queue, upto - 1);
        let (entity, state) = controllers[upto - 1];
        match spec_get_action(state) {
            Some(action) if spec_can_act(world, entity) => so_far.insert(entity, action),
            _ => so_far,
        }
    }
}

/// Reads the controllers, each given with the entity it steers, and queues
/// what they ask for. An entity that is knocked out, or is not in the
/// world, gets nothing queued.
pub fn queue_inputs(
    world: &World,
    controllers: &Vec<(EntityId, PlayerActionState)>,
    input_map: &mut EntityActionMap,
)
    ensures
        final(input_map)@ == spec_queue_inputs(
            world@,
            controllers@,
            old(input_map)@,
            controllers@.len() as int,
        ),
{
    let n = controllers.len();
    let mut i: usize = 0;
    while i < n
        invariant
            i <= n,
            n == controllers@.len(),
            input_map@ == spec_queue_inputs(world@, controllers@, old(input_map)@, i as int),
        decreases n - i,
    {
        let (entity, action_state) = controllers[i];
        if let Some(record) = world.get(entity) {
            if record.knockout.is_none() {
                if let Some(input_action) = get_action(&action_state) {
                    input_map.insert(entity, input_action);
                }
            }
        }
        i += 1;
    }
}

/// Input collection registers nothing for an entity that is knocked out:
/// whatever the queue holds for such an entity after the controllers have
/// been read, it held before.
pub proof fn lemma_knocked_out_is_not_queued(
    world: WorldView,
    controllers: Seq<(EntityId, PlayerActionState)>,
    queue: Map<EntityId, InputAction>,
    upto: int,
    entity: EntityId,
)
    requires
        !spec_can_act(world, entity),
    ensures
        spec_queue_inputs(world, controllers, queue, upto).contains_key(entity)
            == queue.contains_key(entity),
        queue.contains_key(entity) ==> spec_queue_inputs(world, controllers, queue, upto)[entity]
            == queue[entity],
    decreases upto,
{
    if upto > 0 {
        lemma_knocked_out_is_not_queued(world, controllers, queue, upto - 1, entity);
    }
}

/// The table once each controller has been applied straight to its
/// entity, without a queue: the entity begins a leap the way its
/// controller asks, if it is active and idle.
pub open spec fn spec_register_inputs(
    entities: Seq<EntityRecord>,
    controllers: Seq<(EntityId, PlayerActionState)>,
    upto: int,
) -> Seq<EntityRecord>
    decreases upto,
{
    if upto <= 0 {
        entities
    } else {
        let so_far = spec_register_inputs(entities, controllers, upto - 1);
        let (entity, state) = controllers[upto - 1];
        if entity < so_far.len() {
            so_far.update(entity as int, spec_apply_input(so_far[entity as int], spec_get_action(state)))
        } else {
            so_far
        }
    }
}

/// Applies each controller straight to its entity: for a game without
/// ticks from a server, where nothing needs to be queued or logged.
pub fn register_inputs(controllers: &Vec<(EntityId, PlayerActionState)>, world: &mut World)
    ensures
        final(world)@ == old(world)@.with_entities(
            spec_register_inputs(old(world)@.entities, controllers@, controllers@.len() as int),
        ),
{
    let n = controllers.len();
    let mut i: usize = 0;
    while i < n
        invariant
            i <= n,
            n == controllers@.len(),
            world@.levels == old(world)@.levels,
            world@.entities == spec_register_inputs(old(world)@.entities, controllers@, i as int),
        decreases n - i,
    {
        let (entity, action_state) = controllers[i];
        if let Some(mut record) = world.get(entity) {
            let direction = get_action(&action_state);
            if let Some(action) = direction {
                if record.controlled.is_some() && record.knockout.is_none() {
                    if let (Some(mut position), Some(mut motor)) = (
                        record.position,
                        record.step_motor,
                    ) {
                        if !motor.is_running() {
                            motor.start(&mut position, action.get_direction());
                            record.position = Some(position);
                            record.step_motor = Some(motor);
                        }
                    }
                }
            }
            world.set(entity, record);
            proof {
                assert(world@.entities =~= spec_register_inputs(
                    old(world)@.entities,
                    controllers@,
                    i + 1,
                ));
            }
        }
        i += 1;
    }
}

} // verus!
