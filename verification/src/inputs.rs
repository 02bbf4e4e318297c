//! Intended actions, and the queue that holds at most one per entity until
//! the next tick takes them.

use vstd::prelude::*;
use bevy_utils::HashMap;
use crate::components::Direction;

verus! {

/// An entity's place in the world's table.
pub type EntityId = u64;

#[derive(Clone, Copy, Debug, PartialEq, Eq, Structural)]
pub enum InputAction {
    Up,
    Down,
    Left,
    Right,
}

impl InputAction {
    pub open spec fn spec_get_direction(&self) -> Direction {
        match *self {
            InputAction::Up => Direction::Up,
            InputAction::Down => Direction::Down,
            InputAction::Left => Direction::Left,
            InputAction::Right => Direction::Right,
        }
    }

    /// The direction of the same name.
    #[verifier::when_used_as_spec(spec_get_direction)]
    pub fn get_direction(&self) -> (direction: Direction)
        ensures
            direction == self.spec_get_direction(),
    {
        match self {
            InputAction::Up => Direction::Up,
            InputAction::Down => Direction::Down,
            InputAction::Left => Direction::Left,
            InputAction::Right => Direction::Right,
        }
    }
}

/// What an [`EntityActionMap`] holds: for each entity that has an action
/// queued, that action.
pub uninterp spec fn action_map_contents(map: EntityActionMap) -> Map<EntityId, InputAction>;

/// The latest action of each entity, kept in a `bevy_utils::HashMap`. Verus
/// does not look inside: all it knows of a map is what the wrappers of the
/// hash map's methods say of [`action_map_contents`].
#[verifier::external_body]
#[derive(Debug)]
pub struct EntityActionMap(HashMap<EntityId, InputAction>);

impl View for EntityActionMap {
    type V = Map<EntityId, InputAction>;

    open spec fn view(&self) -> Map<EntityId, InputAction> {
        action_map_contents(*self)
    }
}

/// The contents of a map in which nothing is queued.
pub open spec fn no_actions() -> Map<EntityId, InputAction> {
    Map::empty()
}

/// What `contents` holds for `entity`, if anything.
pub open spec fn spec_queued(contents: Map<EntityId, InputAction>, entity: EntityId) -> Option<
    InputAction,
> {
    if contents.contains_key(entity) {
        Some(contents[entity])
    } else {
        None
    }
}

/// Whether `entries` lists each entry of `contents` once and nothing else.
pub open spec fn lists_contents(
    entries: Seq<(EntityId, InputAction)>,
    contents: Map<EntityId, InputAction>,
) -> bool {
    &&& forall|i: int|
        0 <= i < entries.len() ==> contents.contains_key(#[trigger] entries[i].0)
            && contents[entries[i].0] == entries[i].1
    &&& forall|entity: EntityId| #[trigger]
        contents.contains_key(entity) ==> exists|i: int|
            0 <= i < entries.len() && (#[trigger] entries[i]).0 == entity
    &&& forall|i: int, j: int|
        0 <= i < j < entries.len() ==> (#[trigger] entries[i]).0 != (#[trigger] entries[j]).0
}

/// `HashMap::default`: the map that holds nothing.
#[verifier::external_body]
fn map_default() -> (queue: EntityActionMap)
    ensures
        action_map_contents(queue) == no_actions(),
{
    EntityActionMap(HashMap::default())
}

/// `HashMap::insert`: `action` takes the place of whatever `entity` had
/// queued, and that earlier action, if any, is handed back.
#[verifier::external_body]
fn map_insert(queue: &mut EntityActionMap, entity: EntityId, action: InputAction) -> (previous: Option<
    InputAction,
>)
    ensures
        action_map_contents(*final(queue)) == action_map_contents(*old(queue)).insert(
            entity,
            action,
        ),
        previous == spec_queued(action_map_contents(*old(queue)), entity),
{
    queue.0.insert(entity, action)
}

/// `HashMap::get`: the action queued for `entity`, if there is one.
#[verifier::external_body]
fn map_get(queue: &EntityActionMap, entity: EntityId) -> (action: Option<InputAction>)
    ensures
        action == spec_queued(action_map_contents(*queue), entity),
{
    queue.0.get(&entity).copied()
}

/// `HashMap::clear`: nothing is queued afterwards.
#[verifier::external_body]
fn map_clear(queue: &mut EntityActionMap)
    ensures
        action_map_contents(*final(queue)) == no_actions(),
{
    queue.0.clear()
}

/// `HashMap::drain`: empties the map and hands out what it held, each
/// entry once, in an order that is the map's own business.
#[verifier::external_body]
fn map_drain(queue: &mut EntityActionMap) -> (entries: Vec<(EntityId, InputAction)>)
    ensures
        action_map_contents(*final(queue)) == no_actions(),
        lists_contents(entries@, action_map_contents(*old(queue))),
{
    queue.0.drain().collect()
}

/// `HashMap::clone`: a second map with the same contents.
#[verifier::external_body]
fn map_clone(queue: &EntityActionMap) -> (copy: EntityActionMap)
    ensures
        action_map_contents(copy) == action_map_contents(*queue),
{
    EntityActionMap(queue.0.clone())
}

impl EntityActionMap {
    /// A queue that holds nothing.
    pub fn new() -> (queue: EntityActionMap)
        ensures
            queue@ == no_actions(),
    {
        map_default()
    }

    /// Queues `action` for `entity` in place of whatever the entity had
    /// queued, and hands back that earlier action, if any: the last write
    /// before a tick wins.
    pub fn insert(&mut self, entity: EntityId, action: InputAction) -> (previous: Option<
        InputAction,
    >)
        ensures
            final(self)@ == old(self)@.insert(entity, action),
            previous == spec_queued(old(self)@, entity),
    {
        map_insert(self, entity, action)
    }

    /// The action queued for `entity`, if there is one.
    pub fn get(&self, entity: EntityId) -> (action: Option<InputAction>)
        ensures
            action == spec_queued(self@, entity),
    {
        map_get(self, entity)
    }

    /// Drops all that is queued.
    pub fn clear(&mut self)
        ensures
            final(self)@ == no_actions(),
    {
        map_clear(self)
    }

    /// Empties the queue and hands out what it held, each entry once, in no
    /// particular order.
    pub fn drain(&mut self) -> (entries: Vec<(EntityId, InputAction)>)
        ensures
            final(self)@ == no_actions(),
            lists_contents(entries@, old(self)@),
    {
        map_drain(self)
    }
}

impl Clone for EntityActionMap {
    fn clone(&self) -> (copy: EntityActionMap)
        ensures
            copy@ == self@,
    {
        map_clone(self)
    }
}

impl Default for EntityActionMap {
    fn default() -> (queue: EntityActionMap)
        ensures
            queue@ == no_actions(),
    {
        EntityActionMap::new()
    }
}

} // verus!
