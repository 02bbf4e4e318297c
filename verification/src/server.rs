//! The server's side: which user plays which entity, what a tick's input
//! messages add up to, and what joins the world when a user connects.

use vstd::prelude::*;
use bevy_utils::HashMap;
use crate::bundles::{controlled, CrabBundle};
use crate::components::{
    spec_cars_of, spec_drift_in_columns, spec_is_generated, spec_rafts_of, spec_stand_in_rows,
    Car, ConstantMotor, Controlled, Level, LevelRow, Position, Raft,
};
use crate::history::Tick;
use crate::inputs::{EntityActionMap, EntityId, InputAction};
use crate::messages::{InputMessage, PlayerAssignmentMessage};
use crate::tick::TickActions;
use crate::world::{EntityRecord, World, WorldView};

verus! {

/// The key by which the transport knows a user.
pub type UserKey = u64;

/// What an [`IdMap`] holds: for each key that has a value, that value.
pub uninterp spec fn id_map_contents(map: IdMap) -> Map<u64, u64>;

/// A map from ids to ids, kept in a `bevy_utils::HashMap`. Verus does not
/// look inside: all it knows of a map is what the wrappers of the hash
/// map's methods say of [`id_map_contents`].
#[verifier::external_body]
#[derive(Debug)]
pub struct IdMap(HashMap<u64, u64>);

impl View for IdMap {
    type V = Map<u64, u64>;

    open spec fn view(&self) -> Map<u64, u64> {
        id_map_contents(*self)
    }
}

/// The contents of a map without entries.
pub open spec fn no_ids() -> Map<u64, u64> {
    Map::empty()
}

/// What `map` holds for `key`, if anything.
pub open spec fn spec_lookup(map: Map<u64, u64>, key: u64) -> Option<u64> {
    if map.contains_key(key) {
        Some(map[key])
    } else {
        None
    }
}

/// `HashMap::default`: the map that holds nothing.
#[verifier::external_body]
fn id_map_default() -> (map: IdMap)
    ensures
        id_map_contents(map) == no_ids(),
{
    IdMap(HashMap::default())
}

/// `HashMap::insert`: `value` takes the place of whatever `key` had, and
/// that earlier value, if any, is handed back.
#[verifier::external_body]
fn id_map_insert(map: &mut IdMap, key: u64, value: u64) -> (previous: Option<u64>)
    ensures
        id_map_contents(*final(map)) == id_map_contents(*old(map)).insert(key, value),
        previous == spec_lookup(id_map_contents(*old(map)), key),
{
    map.0.insert(key, value)
}

/// `HashMap::get`: the value of `key`, if it has one.
#[verifier::external_body]
fn id_map_get(map: &IdMap, key: u64) -> (value: Option<u64>)
    ensures
        value == spec_lookup(id_map_contents(*map), key),
{
    map.0.get(&key).copied()
}

/// `HashMap::remove`: `key` has no value afterwards; the one it had, if
/// any, is handed back.
#[verifier::external_body]
fn id_map_remove(map: &mut IdMap, key: u64) -> (value: Option<u64>)
    ensures
        id_map_contents(*final(map)) == id_map_contents(*old(map)).remove(key),
        value == spec_lookup(id_map_contents(*old(map)), key),
{
    map.0.remove(&key)
}

/// Which user plays which entity, looked up either way.
pub struct UserEntities {
    user_to_entity_map: IdMap,
    entity_to_user_map: IdMap,
}

impl UserEntities {
    /// The entity of each user that plays one.
    pub closed spec fn entities(&self) -> Map<UserKey, EntityId> {
        self.user_to_entity_map@
    }

    /// The user of each entity that is played.
    pub closed spec fn users(&self) -> Map<EntityId, UserKey> {
        self.entity_to_user_map@
    }

    pub fn new() -> (users: UserEntities)
        ensures
            users.entities() == no_ids(),
            users.users() == no_ids(),
    {
        UserEntities { user_to_entity_map: id_map_default(), entity_to_user_map: id_map_default() }
    }

    /// The entity that `user` plays.
    pub fn get_entity(&self, user: UserKey) -> (entity: Option<EntityId>)
        ensures
            entity == spec_lookup(self.entities(), user),
    {
        id_map_get(&self.user_to_entity_map, user)
    }

    /// The user that plays `entity`.
    pub fn get_user(&self, entity: EntityId) -> (user: Option<UserKey>)
        ensures
            user == spec_lookup(self.users(), entity),
    {
        id_map_get(&self.entity_to_user_map, entity)
    }

    /// Records that `user_key` plays `entity`.
    pub fn insert(&mut self, user_key: UserKey, entity: EntityId)
        ensures
            final(self).entities() == old(self).entities().insert(
                user_key,
                entity,
            ),
            final(self).users() == old(self).users().insert(
                entity,
                user_key,
            ),
    {
        id_map_insert(&mut self.user_to_entity_map, user_key, entity);
        id_map_insert(&mut self.entity_to_user_map, entity, user_key);
    }

    /// Forgets `user` and the entity it played, and hands that entity back.
    /// An unknown user changes nothing.
    pub fn remove(&mut self, user: UserKey) -> (entity: Option<EntityId>)
        ensures
            entity == spec_lookup(old(self).entities(), user),
            final(self).entities() == old(self).entities().remove(user),
            final(self).users() == match entity {
                Some(entity) => old(self).users().remove(entity),
                None => old(self).users(),
            },
    {
        match id_map_remove(&mut self.user_to_entity_map, user) {
            Some(entity) => {
                id_map_remove(&mut self.entity_to_user_map, entity);
                Some(entity)
            },
            None => None,
        }
    }
}

/// What the input messages of one tick add up to: one action per entity,
/// the last message for an entity overwriting the earlier ones. A message
/// without an entity or without an action counts for nothing.
pub open spec fn spec_player_actions(messages: Seq<InputMessage>) -> Map<EntityId, InputAction>
    decreases messages.len(),
{
    if messages.len() == 0 {
        Map::empty()
    } else {
        let so_far = spec_player_actions(messages.drop_last());
        match (messages.last().entity, messages.last().action) {
            (Some(entity), Some(action)) => so_far.insert(entity, action),
            _ => so_far,
        }
    }
}

/// What the input messages of one tick add up to.
pub fn player_actions(messages: &Vec<InputMessage>) -> (actions: EntityActionMap)
    ensures
        actions@ == spec_player_actions(messages@),
{
    let mut player_actions = EntityActionMap::new();
    let n = messages.len();
    let mut i: usize = 0;
    while i < n
        invariant
            i <= n,
            n == messages@.len(),
            player_actions@ == spec_player_actions(messages@.take(i as int)),
        decreases n - i,
    {
        proof {
            assert(messages@.take(i + 1).drop_last() =~= messages@.take(i as int));
        }
        let command = messages[i];
        if let Some(entity) = command.entity {
            if let Some(action) = command.action {
                player_actions.insert(entity, action);
            }
        }
        i += 1;
    }
    proof {
        assert(messages@.take(n as int) =~= messages@);
    }
    player_actions
}

/// Handles one batch of server ticks, each with the input messages that
/// came in for it: every tick is handed out with what its messages add up
/// to, in the order of the batch.
pub fn tick_events(ticks: &Vec<(Tick, Vec<InputMessage>)>) -> (tick_actions: Vec<TickActions>)
    ensures
        tick_actions@.len() == ticks@.len(),
        forall|i: int|
            0 <= i < ticks@.len() ==> (#[trigger] tick_actions@[i]).0 == ticks@[i].0
                && tick_actions@[i].1@ == spec_player_actions(ticks@[i].1@),
{
    let mut tick_actions: Vec<TickActions> = Vec::new();
    let n = ticks.len();
    let mut i: usize = 0;
    while i < n
        invariant
            i <= n,
            n == ticks@.len(),
            tick_actions@.len() == i,
            forall|j: int|
                0 <= j < i ==> (#[trigger] tick_actions@[j]).0 == ticks@[j].0
                    && tick_actions@[j].1@ == spec_player_actions(ticks@[j].1@),
        decreases n - i,
    {
        let actions = player_actions(&ticks[i].1);
        tick_actions.push((ticks[i].0, actions));
        i += 1;
    }
    tick_actions
}

/// The number of players among the entities with ids below `upto`.
pub open spec fn spec_count_players(entities: Seq<EntityRecord>, upto: int) -> nat
    decreases upto,
{
    if upto <= 0 {
        0
    } else if entities[upto - 1].crab.is_some() {
        spec_count_players(entities, upto - 1) + 1
    } else {
        spec_count_players(entities, upto - 1)
    }
}

/// The number of players in the world.
pub fn count_players(world: &World) -> (count: usize)
    ensures
        count == spec_count_players(world@.entities, world@.entities.len() as int),
{
    let n = world.entities.len();
    let mut count: usize = 0;
    let mut i: usize = 0;
    while i < n
        invariant
            i <= n,
            n == world@.entities.len(),
            count == spec_count_players(world@.entities, i as int),
            count <= i,
        decreases n - i,
    {
        if world.entities[i].crab.is_some() {
            count += 1;
        }
        i += 1;
    }
    count
}

/// The most players that a game takes.
pub const MAX_PLAYERS: usize = 2;

/// The record of a car that joins the world.
pub open spec fn spec_car_record(bundle: (Position, ConstantMotor)) -> EntityRecord {
    EntityRecord {
        car: Some(Car),
        controlled: Some(Controlled),
        position: Some(bundle.0),
        constant_motor: Some(bundle.1),
        ..EntityRecord::spec_empty()
    }
}

/// The record of a raft that joins the world.
pub open spec fn spec_raft_record(bundle: (Position, ConstantMotor)) -> EntityRecord {
    EntityRecord {
        raft: Some(Raft),
        controlled: Some(Controlled),
        position: Some(bundle.0),
        constant_motor: Some(bundle.1),
        ..EntityRecord::spec_empty()
    }
}

/// The record of a player that joins the world.
pub open spec fn spec_player_record(bundle: CrabBundle) -> EntityRecord {
    EntityRecord { controlled: Some(Controlled), ..bundle.spec_record() }
}

/// Whether `after` is what `before` can become when a level joins it:
/// `rows` is the new level, drawn by the generator, and the new entities
/// are its cars, then its rafts, all controlled, the cars standing in its
/// road rows and the rafts in its river rows.
pub open spec fn spec_level_joined(
    before: WorldView,
    after: WorldView,
    rows: Seq<LevelRow>,
    cars: Seq<(Position, ConstantMotor)>,
    rafts: Seq<(Position, ConstantMotor)>,
) -> bool {
    &&& spec_is_generated(rows)
    &&& after.levels == before.levels.push(rows)
    &&& after.entities == before.entities + Seq::new(cars.len(), |i: int| spec_car_record(cars[i]))
        + Seq::new(rafts.len(), |i: int| spec_raft_record(rafts[i]))
    &&& spec_stand_in_rows(cars, rows, LevelRow::Road)
    &&& spec_stand_in_rows(rafts, rows, LevelRow::River)
    &&& spec_drift_in_columns(cars)
    &&& spec_drift_in_columns(rafts)
}

/// Whether `after` has every entity of `before`, unchanged and under its
/// id, and perhaps more.
pub open spec fn spec_extends(before: WorldView, after: WorldView) -> bool {
    &&& before.entities.len() <= after.entities.len()
    &&& forall|i: int|
        0 <= i < before.entities.len() ==> #[trigger] after.entities[i] == before.entities[i]
}

/// Draws a level and puts it into the world with its cars and rafts.
pub fn spawn_random_level(world: &mut World)
    ensures
        exists|rows: Seq<LevelRow>, cars: Seq<(Position, ConstantMotor)>, rafts: Seq<
            (Position, ConstantMotor),
        >| #[trigger]
            spec_level_joined(old(world)@, final(world)@, rows, cars, rafts),
        spec_extends(old(world)@, final(world)@),
        final(world)@.levels.len() == old(world)@.levels.len() + 1,
{
    let level = Level::new_random();
    let (car_bundles, raft_bundles) = level.create_level_bundles();
    let ghost cars = spec_cars_of(car_bundles@);
    let ghost rafts = spec_rafts_of(raft_bundles@);
    let ghost car_records = Seq::new(cars.len(), |i: int| spec_car_record(cars[i]));
    let ghost raft_records = Seq::new(rafts.len(), |i: int| spec_raft_record(rafts[i]));
    let mut i: usize = 0;
    while i < car_bundles.len()
        invariant
            i <= car_bundles@.len(),
            cars == spec_cars_of(car_bundles@),
            car_records == Seq::new(cars.len(), |i: int| spec_car_record(cars[i])),
            world@.levels == old(world)@.levels,
            world@.entities == old(world)@.entities + car_records.take(i as int),
        decreases car_bundles@.len() - i,
    {
        let ghost sofar = world@.entities;
        world.spawn(controlled(EntityRecord::car(car_bundles[i])));
        i += 1;
        proof {
            assert(car_records.take(i as int) =~= car_records.take(i - 1).push(
                car_records[i - 1],
            ));
            assert(world@.entities =~= old(world)@.entities + car_records.take(i as int));
        }
    }
    let mut j: usize = 0;
    while j < raft_bundles.len()
        invariant
            j <= raft_bundles@.len(),
            rafts == spec_rafts_of(raft_bundles@),
            raft_records == Seq::new(rafts.len(), |i: int| spec_raft_record(rafts[i])),
            world@.levels == old(world)@.levels,
            world@.entities == old(world)@.entities + car_records + raft_records.take(j as int),
        decreases raft_bundles@.len() - j,
    {
        world.spawn(controlled(EntityRecord::raft(raft_bundles[j])));
        j += 1;
        proof {
            assert(raft_records.take(j as int) =~= raft_records.take(j - 1).push(
                raft_records[j - 1],
            ));
            assert(world@.entities =~= old(world)@.entities + car_records + raft_records.take(
                j as int,
            ));
        }
    }
    let ghost rows = level@;
    world.spawn_level(level);
    proof {
        assert(car_records.take(car_records.len() as int) =~= car_records);
        assert(raft_records.take(raft_records.len() as int) =~= raft_records);
        assert(spec_level_joined(old(world)@, world@, rows, cars, rafts));
    }
}

/// Takes one user into the game, where `num_players` players were counted
/// when the batch of connections began. With no player counted, a level is
/// drawn first and joins the world with its cars and rafts. With fewer than
/// `MAX_PLAYERS` counted, a new player joins the world, `user_key` is
/// recorded as playing it, and the message that tells the user so is
/// handed out. With `MAX_PLAYERS` or more the user only watches.
pub fn connect_player(
    user_key: UserKey,
    num_players: usize,
    world: &mut World,
    user_entities: &mut UserEntities,
) -> (assignment: Option<PlayerAssignmentMessage>)
    ensures
        spec_extends(old(world)@, final(world)@),
        final(world)@.levels.len() == old(world)@.levels.len() + if num_players == 0 {
            1int
        } else {
            0int
        },
        num_players >= MAX_PLAYERS ==> {
            &&& assignment is None
            &&& final(world)@ == old(world)@
            &&& final(user_entities).entities() == old(user_entities).entities()
            &&& final(user_entities).users() == old(user_entities).users()
        },
        num_players < MAX_PLAYERS ==> {
            &&& final(world)@.entities.len() > old(world)@.entities.len()
            &&& assignment matches Some(message)
            &&& message.entity matches Some(entity)
            &&& entity == final(world)@.entities.len() - 1
            &&& final(world)@.entities.last() == spec_player_record(CrabBundle::new())
            &&& final(user_entities).entities() == old(user_entities).entities().insert(user_key, entity)
            &&& final(user_entities).users() == old(user_entities).users().insert(entity, user_key)
            &&& num_players != 0 ==> final(world)@ == old(world)@.with_entities(
                old(world)@.entities.push(spec_player_record(CrabBundle::new())),
            )
            &&& num_players == 0 ==> exists|
                rows: Seq<LevelRow>,
                cars: Seq<(Position, ConstantMotor)>,
                rafts: Seq<(Position, ConstantMotor)>,
            | #[trigger]
                spec_level_joined(
                    old(world)@,
                    final(world)@.with_entities(final(world)@.entities.drop_last()),
                    rows,
                    cars,
                    rafts,
                )
        },
{
    // the first to come brings the level into being
    if num_players == 0 {
        spawn_random_level(world);
    }
    let ghost with_level = world@;
    assert(spec_extends(old(world)@, with_level));
    // only so many get to play
    if num_players < MAX_PLAYERS {
        let entity = world.spawn(controlled(CrabBundle::new().record()));
        user_entities.insert(user_key, entity);
        let mut assignment_message = PlayerAssignmentMessage::new();
        assignment_message.entity = Some(entity);
        proof {
            assert(world@.entities.drop_last() =~= with_level.entities);
            assert(world@.with_entities(world@.entities.drop_last()) =~= with_level);
        }
        Some(assignment_message)
    } else {
        None
    }
}

/// Handles one batch of connections: counts the players once, then takes
/// in each user as [`connect_player`] does, in the order of the batch. The
/// messages that tell users what they play are handed out, each with its
/// user.
pub fn connect_events(users: &Vec<UserKey>, world: &mut World, user_entities: &mut UserEntities) -> (assignments: Vec<
    (UserKey, PlayerAssignmentMessage),
>)
    ensures
        old(world)@.entities.len() <= final(world)@.entities.len(),
        forall|i: int|
            0 <= i < old(world)@.entities.len() ==> #[trigger] final(world)@.entities[i] == old(
                world,
            )@.entities[i],
        spec_count_players(old(world)@.entities, old(world)@.entities.len() as int)
            >= MAX_PLAYERS ==> {
            &&& assignments@.len() == 0
            &&& final(world)@ == old(world)@
        },
        spec_count_players(old(world)@.entities, old(world)@.entities.len() as int)
            < MAX_PLAYERS ==> {
            &&& assignments@.len() == users@.len()
            &&& forall|i: int|
                0 <= i < users@.len() ==> {
                    &&& (#[trigger] assignments@[i]).0 == users@[i]
                    &&& assignments@[i].1.entity matches Some(entity)
                    &&& old(world)@.entities.len() <= entity < final(world)@.entities.len()
                    &&& final(world)@.entities[entity as int] == spec_player_record(
                        CrabBundle::new(),
                    )
                }
        },
        spec_count_players(old(world)@.entities, old(world)@.entities.len() as int) == 0
            ==> final(world)@.levels.len() == old(world)@.levels.len() + users@.len(),
        spec_count_players(old(world)@.entities, old(world)@.entities.len() as int) != 0
            ==> final(world)@.levels == old(world)@.levels,
{
    let num_players = count_players(world);
    let mut assignments: Vec<(UserKey, PlayerAssignmentMessage)> = Vec::new();
    let n = users.len();
    let mut i: usize = 0;
    while i < n
        invariant
            i <= n,
            n == users@.len(),
            old(world)@.entities.len() <= world@.entities.len(),
            forall|k: int|
                0 <= k < old(world)@.entities.len() ==> #[trigger] world@.entities[k] == old(
                    world,
                )@.entities[k],
            num_players >= MAX_PLAYERS ==> assignments@.len() == 0 && world@ == old(world)@,
            num_players < MAX_PLAYERS ==> {
                &&& assignments@.len() == i
                &&& forall|k: int|
                    0 <= k < i ==> {
                        &&& (#[trigger] assignments@[k]).0 == users@[k]
                        &&& assignments@[k].1.entity matches Some(entity)
                        &&& old(world)@.entities.len() <= entity < world@.entities.len()
                        &&& world@.entities[entity as int] == spec_player_record(
                            CrabBundle::new(),
                        )
                    }
            },
            num_players == 0 ==> world@.levels.len() == old(world)@.levels.len() + i,
            num_players != 0 ==> world@.levels == old(world)@.levels,
        decreases n - i,
    {
        let user_key = users[i];
        let ghost before = world@;
        let ghost earlier = assignments@;
        let assignment = connect_player(user_key, num_players, world, user_entities);
        if let Some(message) = assignment {
            assignments.push((user_key, message));
            proof {
                assert forall|k: int| 0 <= k < i + 1 implies {
                    &&& (#[trigger] assignments@[k]).0 == users@[k]
                    &&& assignments@[k].1.entity matches Some(entity)
                    &&& old(world)@.entities.len() <= entity < world@.entities.len()
                    &&& world@.entities[entity as int] == spec_player_record(CrabBundle::new())
                } by {
                    if k < i {
                        assert(assignments@[k] == earlier[k]);
                        let entity = earlier[k].1.entity.unwrap();
                        assert(world@.entities[entity as int] == before.entities[entity as int]);
                    } else {
                        assert(assignments@[k] == (user_key, message));
                        let entity = message.entity.unwrap();
                        assert(world@.entities[entity as int] == world@.entities.last());
                    }
                }
            }
        }
        i += 1;
    }
    assignments
}

/// What is known of users and the world while a batch of disconnections is
/// worked through.
pub struct Departures {
    /// The entity of each user that plays one.
    pub entities: Map<UserKey, EntityId>,
    /// The user of each entity that is played.
    pub users: Map<EntityId, UserKey>,
    /// The entity table.
    pub table: Seq<EntityRecord>,
    /// The entities that have left so far.
    pub departed: Seq<EntityId>,
}

/// The state after one more user has left: a user that played an entity is
/// forgotten together with that entity, the entity is stripped of its
/// components if the table has it, and it is listed as departed. A user
/// that played nothing changes nothing.
pub open spec fn spec_depart(state: Departures, user: UserKey) -> Departures {
    if state.entities.contains_key(user) {
        let entity = state.entities[user];
        Departures {
            entities: state.entities.remove(user),
            users: state.users.remove(entity),
            table: if entity < state.table.len() {
                state.table.update(entity as int, EntityRecord::spec_empty())
            } else {
                state.table
            },
            departed: state.departed.push(entity),
        }
    } else {
        state
    }
}

/// The state after each of `users` has left, first entry first.
pub open spec fn spec_depart_all(state: Departures, users: Seq<UserKey>) -> Departures
    decreases users.len(),
{
    if users.len() == 0 {
        state
    } else {
        spec_depart(spec_depart_all(state, users.drop_last()), users.last())
    }
}

/// Handles one batch of disconnections: each user that played an entity is
/// forgotten, and its entity leaves the world. The entities to take out of
/// the transport's rooms are handed out, in the order of the batch.
pub fn disconnect_events(users: &Vec<UserKey>, world: &mut World, user_entities: &mut UserEntities) -> (departed: Vec<
    EntityId,
>)
    ensures
        ({
            let after = spec_depart_all(
                Departures {
                    entities: old(user_entities).entities(),
                    users: old(user_entities).users(),
                    table: old(world)@.entities,
                    departed: Seq::empty(),
                },
                users@,
            );
            &&& departed@ == after.departed
            &&& final(world)@ == old(world)@.with_entities(after.table)
            &&& final(user_entities).entities() == after.entities
            &&& final(user_entities).users() == after.users
        }),
{
    let mut departed: Vec<EntityId> = Vec::new();
    let ghost start = Departures {
        entities: user_entities.entities(),
        users: user_entities.users(),
        table: world@.entities,
        departed: Seq::empty(),
    };
    let n = users.len();
    let mut i: usize = 0;
    while i < n
        invariant
            i <= n,
            n == users@.len(),
            world@.levels == old(world)@.levels,
            ({
                let so_far = spec_depart_all(start, users@.take(i as int));
                &&& departed@ == so_far.departed
                &&& world@.entities == so_far.table
                &&& user_entities.entities() == so_far.entities
                &&& user_entities.users() == so_far.users
            }),
        decreases n - i,
    {
        proof {
            assert(users@.take(i + 1).drop_last() =~= users@.take(i as int));
        }
        if let Some(entity) = user_entities.remove(users[i]) {
            world.despawn(entity);
            departed.push(entity);
        }
        i += 1;
    }
    proof {
        assert(users@.take(n as int) =~= users@);
        assert(world@ =~= old(world)@.with_entities(world@.entities));
    }
    departed
}

} // verus!
