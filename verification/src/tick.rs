//! One tick of the game: six passes over the entity table, always in the
//! same order. What each pass does to an entity is a function of the table
//! as the pass found it, so a tick is a function of the world and the
//! actions due.

use vstd::prelude::*;
use crate::components::{
    spec_is_offscreen, spec_is_row_of_kind, spec_tile_index, trunc_div, ConstantMotor, Knockout,
    LevelRow, Position, Score, StepMotor, TileRow, MOTION_STEPS, STEP_SPEED,
};
use crate::constants::{LEVEL_HEIGHT_I32, TILE_SIZE_I32};
use crate::inputs::{no_actions, EntityActionMap, EntityId, InputAction};
use crate::world::{EntityRecord, World, WorldView};

verus! {

/// Pass 1 on one entity: an active entity in mid-leap moves `STEP_SPEED`
/// forward and its motor counts the drive.
pub open spec fn spec_step_motor(record: EntityRecord) -> EntityRecord {
    match (record.position, record.step_motor) {
        (Some(position), Some(motor)) if record.is_active() && motor.step.is_some() => EntityRecord {
            position: Some(position.moved(STEP_SPEED as int, position.direction)),
            step_motor: Some(motor.driven()),
            ..record
        },
        _ => record,
    }
}

/// Pass 2 on one entity: an active entity whose motor is idle turns to face
/// the way of `action` and begins a leap. An entity in mid-leap keeps to
/// its leap, and one without an action stays idle.
pub open spec fn spec_apply_input(record: EntityRecord, action: Option<InputAction>) -> EntityRecord {
    match (record.position, record.step_motor, action) {
        (Some(position), Some(motor), Some(action)) if record.is_active()
            && motor.step.is_none() => EntityRecord {
            position: Some(Position { direction: action.spec_get_direction(), ..position }),
            step_motor: Some(StepMotor { step: Some(0) }),
            ..record
        },
        _ => record,
    }
}

/// Pass 3 on one entity: a controlled entity that is no player drifts with
/// its constant motor, and comes back in at the opposite edge when the drift
/// takes it off the level.
pub open spec fn spec_constant_motor(record: EntityRecord) -> EntityRecord {
    match (record.position, record.constant_motor) {
        (Some(position), Some(motor)) if record.controlled.is_some()
            && record.crab.is_none() => EntityRecord {
            position: Some(motor.driven_and_looped(position)),
            ..record
        },
        _ => record,
    }
}

/// The score that standing at height `y` is worth: the whole tiles between
/// the origin and `y`, none below the origin, and no more than a score can
/// hold.
pub open spec fn spec_score_row(y: int) -> int {
    let row = trunc_div(y, TILE_SIZE_I32 as int);
    if row < 0 {
        0
    } else if row > u16::MAX {
        u16::MAX as int
    } else {
        row
    }
}

/// Pass 4 on one entity: the score of an active player rises to what its
/// height is worth, and never falls.
pub open spec fn spec_score(record: EntityRecord) -> EntityRecord {
    match (record.score, record.position) {
        (Some(score), Some(position)) if record.is_active_player() && spec_score_row(
            position.y as int,
        ) > score.value => EntityRecord {
            score: Some(Score { value: spec_score_row(position.y as int) as u16 }),
            ..record
        },
        _ => record,
    }
}

/// Two tiles overlap when their centres are less than a tile apart on both
/// axes.
pub open spec fn spec_do_tiles_collide(a: Position, b: Position) -> bool {
    -TILE_SIZE_I32 < a.x - b.x < TILE_SIZE_I32 && -TILE_SIZE_I32 < a.y - b.y < TILE_SIZE_I32
}

/// Whether the tiles at `position_a` and `position_b` overlap.
pub fn do_tiles_collide(position_a: &Position, position_b: &Position) -> (r: bool)
    ensures
        r == spec_do_tiles_collide(*position_a, *position_b),
{
    let dx: i64 = position_a.x as i64 - position_b.x as i64;
    let dy: i64 = position_a.y as i64 - position_b.y as i64;
    -(TILE_SIZE_I32 as i64) < dx && dx < TILE_SIZE_I32 as i64 && -(TILE_SIZE_I32 as i64) < dy && dy
        < TILE_SIZE_I32 as i64
}

/// The table after a pass that treats each entity by itself.
pub open spec fn spec_each(
    entities: Seq<EntityRecord>,
    pass: spec_fn(EntityRecord) -> EntityRecord,
) -> Seq<EntityRecord> {
    Seq::new(entities.len(), |i: int| pass(entities[i]))
}

/// The table after pass 1.
pub open spec fn spec_tick_step_motors(entities: Seq<EntityRecord>) -> Seq<EntityRecord> {
    spec_each(entities, |record: EntityRecord| spec_step_motor(record))
}

/// The action that `actions` holds for the entity at index `i`.
pub open spec fn spec_action_of(actions: Map<EntityId, InputAction>, i: int) -> Option<
    InputAction,
> {
    if 0 <= i <= u64::MAX && actions.contains_key(i as u64) {
        Some(actions[i as u64])
    } else {
        None
    }
}

/// The table after pass 2, with `actions` due.
pub open spec fn spec_process_inputs(
    entities: Seq<EntityRecord>,
    actions: Map<EntityId, InputAction>,
) -> Seq<EntityRecord> {
    Seq::new(entities.len(), |i: int| spec_apply_input(entities[i], spec_action_of(actions, i)))
}

/// The table after pass 3.
pub open spec fn spec_tick_constant_motors(entities: Seq<EntityRecord>) -> Seq<EntityRecord> {
    spec_each(entities, |record: EntityRecord| spec_constant_motor(record))
}

/// The table after pass 4.
pub open spec fn spec_tick_score(entities: Seq<EntityRecord>) -> Seq<EntityRecord> {
    spec_each(entities, |record: EntityRecord| spec_score(record))
}

/// Pass 1: drives the step motor of every active entity in mid-leap.
pub fn tick_step_motors(world: &mut World)
    ensures
        final(world)@ == old(world)@.with_entities(spec_tick_step_motors(old(world)@.entities)),
{
    let n = world.entities.len();
    let mut i: usize = 0;
    while i < n
        invariant
            i <= n,
            n == world.entities@.len(),
            n == old(world)@.entities.len(),
            world.levels == old(world).levels,
            forall|j: int|
                0 <= j < i ==> world.entities@[j] == spec_step_motor(
                    #[trigger] old(world)@.entities[j],
                ),
            forall|j: int| i <= j < n ==> world.entities@[j] == #[trigger] old(world)@.entities[j],
        decreases n - i,
    {
        let mut record = world.entities[i];
        if record.controlled.is_some() && record.knockout.is_none() {
            if let (Some(mut position), Some(mut motor)) = (record.position, record.step_motor) {
                motor.drive(&mut position);
                record.position = Some(position);
                record.step_motor = Some(motor);
                world.entities.set(i, record);
            }
        }
        i += 1;
    }
    proof {
        assert(world@.entities =~= spec_tick_step_motors(old(world)@.entities));
        assert(world@.levels =~= old(world)@.levels);
    }
}

/// Pass 2: starts the leap of every active, idle entity that has an action
/// in `actions`. Actions for entities that are missing, knocked out, not
/// controlled, without a motor or in mid-leap have no effect.
pub fn apply_inputs(actions: &EntityActionMap, world: &mut World)
    ensures
        final(world)@ == old(world)@.with_entities(
            spec_process_inputs(old(world)@.entities, actions@),
        ),
{
    let n = world.entities.len();
    let mut i: usize = 0;
    while i < n
        invariant
            i <= n,
            n == world.entities@.len(),
            n == old(world)@.entities.len(),
            world.levels == old(world).levels,
            forall|j: int|
                0 <= j < i ==> world.entities@[j] == spec_apply_input(
                    #[trigger] old(world)@.entities[j],
                    spec_action_of(actions@, j),
                ),
            forall|j: int| i <= j < n ==> world.entities@[j] == #[trigger] old(world)@.entities[j],
        decreases n - i,
    {
        let mut record = world.entities[i];
        if let Some(action) = actions.get(i as u64) {
            if record.controlled.is_some() && record.knockout.is_none() {
                if let (Some(mut position), Some(mut motor)) = (record.position, record.step_motor) {
                    if !motor.is_running() {
                        motor.start(&mut position, action.get_direction());
                        record.position = Some(position);
                        record.step_motor = Some(motor);
                        world.entities.set(i, record);
                    }
                }
            }
        }
        i += 1;
    }
    proof {
        assert(world@.entities =~= spec_process_inputs(old(world)@.entities, actions@));
        assert(world@.levels =~= old(world)@.levels);
    }
}

/// Pass 2 on the queue of a running game: applies what is queued, as
/// [`apply_inputs`] does, and empties the queue, so that each action is
/// taken by one tick only.
pub fn process_inputs(queued_inputs: &mut EntityActionMap, world: &mut World)
    ensures
        final(world)@ == old(world)@.with_entities(
            spec_process_inputs(old(world)@.entities, old(queued_inputs)@),
        ),
        final(queued_inputs)@ == no_actions(),
{
    apply_inputs(queued_inputs, world);
    queued_inputs.clear();
}

/// Pass 3: drives the constant motor of every controlled entity that is no
/// player, with wraparound at the level's edges.
pub fn tick_constant_motors(world: &mut World)
    ensures
        final(world)@ == old(world)@.with_entities(
            spec_tick_constant_motors(old(world)@.entities),
        ),
{
    let n = world.entities.len();
    let mut i: usize = 0;
    while i < n
        invariant
            i <= n,
            n == world.entities@.len(),
            n == old(world)@.entities.len(),
            world.levels == old(world).levels,
            forall|j: int|
                0 <= j < i ==> world.entities@[j] == spec_constant_motor(
                    #[trigger] old(world)@.entities[j],
                ),
            forall|j: int| i <= j < n ==> world.entities@[j] == #[trigger] old(world)@.entities[j],
        decreases n - i,
    {
        let mut record = world.entities[i];
        if record.controlled.is_some() && record.crab.is_none() {
            if let (Some(mut position), Some(motor)) = (record.position, record.constant_motor) {
                motor.drive_and_loop(&mut position);
                record.position = Some(position);
                world.entities.set(i, record);
            }
        }
        i += 1;
    }
    proof {
        assert(world@.entities =~= spec_tick_constant_motors(old(world)@.entities));
        assert(world@.levels =~= old(world)@.levels);
    }
}

/// The score that standing at height `y` is worth.
pub fn score_row(y: i32) -> (row: u16)
    ensures
        row == spec_score_row(y as int),
{
    if y < 0 {
        0
    } else {
        let row: i32 = y / TILE_SIZE_I32;
        if row > u16::MAX as i32 {
            u16::MAX
        } else {
            row as u16
        }
    }
}

/// Pass 4: raises the score of every active player to what its height is
/// worth.
pub fn tick_score(world: &mut World)
    ensures
        final(world)@ == old(world)@.with_entities(spec_tick_score(old(world)@.entities)),
{
    let n = world.entities.len();
    let mut i: usize = 0;
    while i < n
        invariant
            i <= n,
            n == world.entities@.len(),
            n == old(world)@.entities.len(),
            world.levels == old(world).levels,
            forall|j: int|
                0 <= j < i ==> world.entities@[j] == spec_score(#[trigger] old(world)@.entities[j]),
            forall|j: int| i <= j < n ==> world.entities@[j] == #[trigger] old(world)@.entities[j],
        decreases n - i,
    {
        let mut record = world.entities[i];
        if record.crab.is_some() && record.controlled.is_some() && record.knockout.is_none() {
            if let (Some(mut score), Some(position)) = (record.score, record.position) {
                let current_tile_row = score_row(position.y);
                if current_tile_row > score.value {
                    score.value = current_tile_row;
                    record.score = Some(score);
                    world.entities.set(i, record);
                }
            }
        }
        i += 1;
    }
    proof {
        assert(world@.entities =~= spec_tick_score(old(world)@.entities));
        assert(world@.levels =~= old(world)@.levels);
    }
}

/// Whether the level has the row that `position` stands in, and that row is
/// of kind `kind`. Without a level no position is in a row of any kind.
pub open spec fn spec_on_row(level: Option<Seq<LevelRow>>, position: Position, kind: LevelRow) -> bool {
    level matches Some(rows) && spec_is_row_of_kind(
        rows,
        spec_tile_index(position.y as int, LEVEL_HEIGHT_I32 as int),
        kind,
    )
}

/// A car that players can run into: controlled, no player, and somewhere.
pub open spec fn spec_is_car(record: EntityRecord) -> bool {
    record.car.is_some() && record.crab.is_none() && record.controlled.is_some()
        && record.position.is_some()
}

/// A raft that can carry players: controlled, no player, somewhere, and
/// with a motor.
pub open spec fn spec_is_raft(record: EntityRecord) -> bool {
    record.raft.is_some() && record.crab.is_none() && record.controlled.is_some()
        && record.position.is_some() && record.constant_motor.is_some()
}

/// Whether the tile at `position` overlaps that of any car in `entities`.
pub open spec fn spec_any_car_collides(entities: Seq<EntityRecord>, position: Position) -> bool {
    exists|j: int|
        0 <= j < entities.len() && spec_is_car(#[trigger] entities[j]) && spec_do_tiles_collide(
            position,
            entities[j].position.unwrap(),
        )
}

/// The raft with the lowest id, from `from` on, whose tile overlaps the one
/// at `position`.
pub open spec fn spec_first_raft(entities: Seq<EntityRecord>, position: Position, from: int) -> Option<int>
    decreases entities.len() - from,
{
    if from < 0 || from >= entities.len() {
        None
    } else if spec_is_raft(entities[from]) && spec_do_tiles_collide(
        position,
        entities[from].position.unwrap(),
    ) {
        Some(from)
    } else {
        spec_first_raft(entities, position, from + 1)
    }
}

/// Pass 5 on one entity: an active player that stands idle in a road row
/// and overlaps a car is knocked out. A player in mid-leap is safe.
pub open spec fn spec_road_collision(
    record: EntityRecord,
    entities: Seq<EntityRecord>,
    level: Option<Seq<LevelRow>>,
) -> EntityRecord {
    match (record.position, record.step_motor) {
        (Some(position), Some(motor)) if record.is_active_player() && motor.step.is_none()
            && spec_on_row(level, position, LevelRow::Road) && spec_any_car_collides(
            entities,
            position,
        ) => EntityRecord { knockout: Some(Knockout), ..record },
        _ => record,
    }
}

/// Pass 6 on one entity: an active player that stands idle in a river row
/// is carried by the raft it overlaps, the one with the lowest id if there
/// are several, and is knocked out if that carries it off the level. With
/// no raft under it, it is knocked out where it stands. A player in
/// mid-leap is safe.
pub open spec fn spec_river_collision(
    record: EntityRecord,
    entities: Seq<EntityRecord>,
    level: Option<Seq<LevelRow>>,
) -> EntityRecord {
    match (record.position, record.step_motor) {
        (Some(position), Some(motor)) if record.is_active_player() && motor.step.is_none()
            && spec_on_row(level, position, LevelRow::River) => match spec_first_raft(
            entities,
            position,
            0,
        ) {
            Some(raft) => {
                let raft_motor = entities[raft].constant_motor.unwrap();
                let carried = raft_motor.driven(position);
                EntityRecord {
                    position: Some(carried),
                    knockout: if spec_is_offscreen(carried, raft_motor.direction) {
                        Some(Knockout)
                    } else {
                        record.knockout
                    },
                    ..record
                }
            },
            None => EntityRecord { knockout: Some(Knockout), ..record },
        },
        _ => record,
    }
}

/// The table after pass 5.
pub open spec fn spec_tick_road_collisions(
    entities: Seq<EntityRecord>,
    level: Option<Seq<LevelRow>>,
) -> Seq<EntityRecord> {
    Seq::new(entities.len(), |i: int| spec_road_collision(entities[i], entities, level))
}

/// The table after pass 6.
pub open spec fn spec_tick_river_collisions(
    entities: Seq<EntityRecord>,
    level: Option<Seq<LevelRow>>,
) -> Seq<EntityRecord> {
    Seq::new(entities.len(), |i: int| spec_river_collision(entities[i], entities, level))
}

/// Whether the tile at `position` overlaps that of any car.
fn any_car_collides(entities: &Vec<EntityRecord>, position: &Position) -> (r: bool)
    ensures
        r == spec_any_car_collides(entities@, *position),
{
    let n = entities.len();
    let mut j: usize = 0;
    while j < n
        invariant
            j <= n,
            n == entities@.len(),
            forall|k: int|
                0 <= k < j ==> !(spec_is_car(#[trigger] entities@[k]) && spec_do_tiles_collide(
                    *position,
                    entities@[k].position.unwrap(),
                )),
        decreases n - j,
    {
        let other = &entities[j];
        if other.car.is_some() && other.crab.is_none() && other.controlled.is_some() {
            if let Some(car_position) = other.position {
                if do_tiles_collide(position, &car_position) {
                    return true;
                }
            }
        }
        j += 1;
    }
    false
}

/// The motor of the raft with the lowest id whose tile overlaps the one at
/// `position`.
fn first_raft_motor(entities: &Vec<EntityRecord>, position: &Position) -> (motor: Option<
    ConstantMotor,
>)
    ensures
        motor == match spec_first_raft(entities@, *position, 0) {
            Some(raft) => entities@[raft].constant_motor,
            None => None,
        },
        spec_first_raft(entities@, *position, 0) matches Some(raft) ==> 0 <= raft
            < entities@.len() && entities@[raft].constant_motor.is_some(),
{
    let n = entities.len();
    let mut j: usize = 0;
    while j < n
        invariant
            j <= n,
            n == entities@.len(),
            spec_first_raft(entities@, *position, 0) == spec_first_raft(
                entities@,
                *position,
                j as int,
            ),
        decreases n - j,
    {
        let other = &entities[j];
        if other.raft.is_some() && other.crab.is_none() && other.controlled.is_some() {
            if let (Some(raft_position), Some(raft_motor)) = (
                other.position,
                other.constant_motor,
            ) {
                if do_tiles_collide(position, &raft_position) {
                    return Some(raft_motor);
                }
            }
        }
        j += 1;
    }
    None
}

/// Pass 5: knocks out every active player that stands idle in a road row
/// and overlaps a car. A world without exactly one level is left as it is.
pub fn tick_road_collisions(world: &mut World)
    ensures
        final(world)@ == old(world)@.with_entities(
            spec_tick_road_collisions(old(world)@.entities, old(world)@.single_level()),
        ),
{
    if world.levels.len() != 1 {
        proof {
            assert(world@.entities =~= spec_tick_road_collisions(world@.entities, None));
        }
        return ;
    }
    let n = world.entities.len();
    let mut next: Vec<EntityRecord> = Vec::new();
    let mut i: usize = 0;
    while i < n
        invariant
            i <= n,
            n == world.entities@.len(),
            *world == *old(world),
            world.levels@.len() == 1,
            next@.len() == i,
            forall|j: int|
                0 <= j < i ==> #[trigger] next@[j] == spec_road_collision(
                    world@.entities[j],
                    world@.entities,
                    world@.single_level(),
                ),
        decreases n - i,
    {
        let mut record = world.entities[i];
        if record.crab.is_some() && record.controlled.is_some() && record.knockout.is_none() {
            if let (Some(position), Some(motor)) = (record.position, record.step_motor) {
                let row = TileRow::from(position.y);
                if !motor.is_running() && world.levels[0].is_row_of_kind(row, LevelRow::Road)
                    && any_car_collides(&world.entities, &position) {
                    // a car has run into the player
                    record.knockout = Some(Knockout);
                }
            }
        }
        next.push(record);
        i += 1;
    }
    world.entities = next;
    proof {
        assert(world@.entities =~= spec_tick_road_collisions(
            old(world)@.entities,
            old(world)@.single_level(),
        ));
        assert(world@.levels =~= old(world)@.levels);
    }
}

/// Pass 6: carries every active player that stands idle in a river row with
/// the raft under it, and knocks out those that leave the level or have no
/// raft under them. A world without exactly one level is left as it is.
pub fn tick_river_collisions(world: &mut World)
    ensures
        final(world)@ == old(world)@.with_entities(
            spec_tick_river_collisions(old(world)@.entities, old(world)@.single_level()),
        ),
{
    if world.levels.len() != 1 {
        proof {
            assert(world@.entities =~= spec_tick_river_collisions(world@.entities, None));
        }
        return ;
    }
    let n = world.entities.len();
    let mut next: Vec<EntityRecord> = Vec::new();
    let mut i: usize = 0;
    while i < n
        invariant
            i <= n,
            n == world.entities@.len(),
            *world == *old(world),
            world.levels@.len() == 1,
            next@.len() == i,
            forall|j: int|
                0 <= j < i ==> #[trigger] next@[j] == spec_river_collision(
                    world@.entities[j],
                    world@.entities,
                    world@.single_level(),
                ),
        decreases n - i,
    {
        let mut record = world.entities[i];
        if record.crab.is_some() && record.controlled.is_some() && record.knockout.is_none() {
            if let (Some(mut position), Some(motor)) = (record.position, record.step_motor) {
                let row = TileRow::from(position.y);
                let mut should_crab_ko = false;
                // if the player is on a river
                if !motor.is_running() && world.levels[0].is_row_of_kind(row, LevelRow::River) {
                    if let Some(raft_motor) = first_raft_motor(&world.entities, &position) {
                        // and on a raft, the player goes with it and is out
                        // if that takes it off the level
                        should_crab_ko = raft_motor.drive_offscreen(&mut position);
                        record.position = Some(position);
                    } else {
                        // and not on a raft, the player is out
                        should_crab_ko = true;
                    }
                }
                if should_crab_ko {
                    record.knockout = Some(Knockout);
                }
            }
        }
        next.push(record);
        i += 1;
    }
    world.entities = next;
    proof {
        assert(world@.entities =~= spec_tick_river_collisions(
            old(world)@.entities,
            old(world)@.single_level(),
        ));
        assert(world@.levels =~= old(world)@.levels);
    }
}

/// The actions due at one tick, with the number of that tick.
pub type TickActions = (u16, EntityActionMap);

/// The world after one tick with `actions` due: the six passes, in this
/// order.
pub open spec fn spec_core_tick(world: WorldView, actions: Map<EntityId, InputAction>) -> WorldView {
    let level = world.single_level();
    let driven = spec_tick_step_motors(world.entities);
    let started = spec_process_inputs(driven, actions);
    let drifted = spec_tick_constant_motors(started);
    let scored = spec_tick_score(drifted);
    let run_over = spec_tick_road_collisions(scored, level);
    let carried = spec_tick_river_collisions(run_over, level);
    world.with_entities(carried)
}

/// The world after one tick for each entry of `ticks`, first entry first.
pub open spec fn spec_core_game_loop(
    world: WorldView,
    ticks: Seq<Map<EntityId, InputAction>>,
) -> WorldView
    decreases ticks.len(),
{
    if ticks.len() == 0 {
        world
    } else {
        spec_core_tick(spec_core_game_loop(world, ticks.drop_last()), ticks.last())
    }
}

/// The actions of each entry of `ticks`, without the tick numbers.
pub open spec fn spec_actions_of(ticks: Seq<TickActions>) -> Seq<Map<EntityId, InputAction>> {
    Seq::new(ticks.len(), |i: int| ticks[i].1@)
}

/// The passes of a tick, in their order.
#[derive(Clone, Copy, Debug, PartialEq, Eq, Hash, Structural)]
pub struct CoreTickSchedule;

impl CoreTickSchedule {
    /// Advances the world by one tick with `actions` due: leaps in flight
    /// move on, then input starts new leaps, cars and rafts drift, scores
    /// rise, and at last cars and rivers take their toll.
    pub fn run(&self, world: &mut World, actions: &EntityActionMap)
        ensures
            final(world)@ == spec_core_tick(old(world)@, actions@),
    {
        tick_step_motors(world);
        apply_inputs(actions, world);
        tick_constant_motors(world);
        tick_score(world);
        tick_road_collisions(world);
        tick_river_collisions(world);
    }
}

/// Advances the world by one tick for each entry of `ticks`, in the order
/// of the entries. With no entry the world stays as it is.
pub fn run_core_game_loop(ticks: &Vec<TickActions>, world: &mut World)
    ensures
        final(world)@ == spec_core_game_loop(old(world)@, spec_actions_of(ticks@)),
{
    let n = ticks.len();
    let mut i: usize = 0;
    while i < n
        invariant
            i <= n,
            n == ticks@.len(),
            world@ == spec_core_game_loop(old(world)@, spec_actions_of(ticks@).take(i as int)),
        decreases n - i,
    {
        proof {
            let done = spec_actions_of(ticks@).take(i as int);
            let next = spec_actions_of(ticks@).take(i + 1);
            assert(next.drop_last() =~= done);
            assert(next.last() == ticks@[i as int].1@);
        }
        CoreTickSchedule.run(world, &ticks[i].1);
        i += 1;
    }
    proof {
        assert(spec_actions_of(ticks@).take(n as int) =~= spec_actions_of(ticks@));
    }
}

/// A tick keeps the number of entities and the levels.
pub proof fn lemma_tick_keeps_shape(world: WorldView, actions: Map<EntityId, InputAction>)
    ensures
        spec_core_tick(world, actions).entities.len() == world.entities.len(),
        spec_core_tick(world, actions).levels == world.levels,
{
}

/// A run of ticks keeps the number of entities and the levels.
pub proof fn lemma_game_loop_keeps_shape(world: WorldView, ticks: Seq<Map<EntityId, InputAction>>)
    ensures
        spec_core_game_loop(world, ticks).entities.len() == world.entities.len(),
        spec_core_game_loop(world, ticks).levels == world.levels,
    decreases ticks.len(),
{
    if ticks.len() > 0 {
        lemma_game_loop_keeps_shape(world, ticks.drop_last());
        lemma_tick_keeps_shape(spec_core_game_loop(world, ticks.drop_last()), ticks.last());
    }
}

/// Determinism: two runs that start from the same components and are given
/// the same actions, tick for tick, end in the same components.
pub proof fn lemma_game_loop_is_deterministic(
    first: WorldView,
    second: WorldView,
    first_ticks: Seq<Map<EntityId, InputAction>>,
    second_ticks: Seq<Map<EntityId, InputAction>>,
)
    requires
        first.entities.len() == second.entities.len(),
        forall|i: int| 0 <= i < first.entities.len() ==> first.entities[i] == second.entities[i],
        first.levels.len() == second.levels.len(),
        forall|i: int|
            0 <= i < first.levels.len() ==> first.levels[i].len() == second.levels[i].len(),
        forall|i: int, row: int|
            0 <= i < first.levels.len() && 0 <= row < first.levels[i].len()
                ==> first.levels[i][row] == second.levels[i][row],
        first_ticks.len() == second_ticks.len(),
        forall|t: int, entity: EntityId|
            0 <= t < first_ticks.len() ==> (first_ticks[t].contains_key(entity)
                <==> second_ticks[t].contains_key(entity)),
        forall|t: int, entity: EntityId|
            0 <= t < first_ticks.len() && first_ticks[t].contains_key(entity)
                ==> first_ticks[t][entity] == second_ticks[t][entity],
    ensures
        spec_core_game_loop(first, first_ticks) == spec_core_game_loop(second, second_ticks),
{
    assert(first.entities =~= second.entities);
    assert forall|i: int| 0 <= i < first.levels.len() implies first.levels[i]
        == second.levels[i] by {
        assert(first.levels[i] =~= second.levels[i]);
    }
    assert(first.levels =~= second.levels);
    assert(first =~= second);
    assert forall|t: int| 0 <= t < first_ticks.len() implies first_ticks[t] == second_ticks[t] by {
        assert(first_ticks[t] =~= second_ticks[t]);
    }
    assert(first_ticks =~= second_ticks);
}

/// Whether `record` is an active entity in a leap that one more drive does
/// not bring to its end.
pub open spec fn spec_in_mid_leap(record: EntityRecord) -> bool {
    &&& record.is_active()
    &&& record.position.is_some()
    &&& record.step_motor matches Some(motor)
    &&& motor.step matches Some(n)
    &&& n + 1 < MOTION_STEPS
}

/// Leap atomicity, on one tick: an entity in mid-leap comes out of a tick
/// one drive further into its leap, facing as before, whatever action is
/// due for it. No action can turn it, start it again or stop it.
pub proof fn lemma_leap_ignores_input(
    world: WorldView,
    actions: Map<EntityId, InputAction>,
    other_actions: Map<EntityId, InputAction>,
    entity: int,
)
    requires
        0 <= entity < world.entities.len(),
        spec_in_mid_leap(world.entities[entity]),
    ensures
        spec_core_tick(world, actions).entities[entity] == spec_core_tick(
            world,
            other_actions,
        ).entities[entity],
        spec_core_tick(world, actions).entities[entity].step_motor == Some(
            world.entities[entity].step_motor.unwrap().driven(),
        ),
        spec_core_tick(world, actions).entities[entity].step_motor.unwrap().step == Some(
            (world.entities[entity].step_motor.unwrap().step.unwrap() + 1) as u32,
        ),
        spec_core_tick(world, actions).entities[entity].position.unwrap().direction
            == world.entities[entity].position.unwrap().direction,
{
    lemma_mid_leap_through_tick(world, actions, entity);
    lemma_mid_leap_through_tick(world, other_actions, entity);
}

/// What a tick makes of an entity in mid-leap: a drive, then a drift if the
/// entity is no player and has a constant motor, then the score.
pub open spec fn spec_mid_leap_after_tick(record: EntityRecord) -> EntityRecord {
    spec_score(spec_constant_motor(spec_step_motor(record)))
}

proof fn lemma_mid_leap_through_tick(
    world: WorldView,
    actions: Map<EntityId, InputAction>,
    entity: int,
)
    requires
        0 <= entity < world.entities.len(),
        spec_in_mid_leap(world.entities[entity]),
    ensures
        spec_core_tick(world, actions).entities[entity] == spec_mid_leap_after_tick(
            world.entities[entity],
        ),
{
    let level = world.single_level();
    let record = world.entities[entity];
    let driven = spec_tick_step_motors(world.entities);
    let started = spec_process_inputs(driven, actions);
    let drifted = spec_tick_constant_motors(started);
    let scored = spec_tick_score(drifted);
    let run_over = spec_tick_road_collisions(scored, level);
    let carried = spec_tick_river_collisions(run_over, level);
    assert(driven[entity] == spec_step_motor(record));
    assert(driven[entity].step_motor.unwrap().step.is_some());
    assert(started[entity] == driven[entity]);
    assert(drifted[entity] == spec_constant_motor(started[entity]));
    assert(scored[entity] == spec_score(drifted[entity]));
    assert(scored[entity].step_motor.unwrap().step.is_some());
    assert(run_over[entity] == scored[entity]);
    assert(carried[entity] == run_over[entity]);
}

/// The score of `record`, or 0 for an entity without one.
pub open spec fn spec_score_value(record: EntityRecord) -> int {
    match record.score {
        Some(score) => score.value as int,
        None => 0,
    }
}

/// Score monotonicity, on one tick: no entity gains or loses its score
/// component, and no score falls.
pub proof fn lemma_tick_never_lowers_score(
    world: WorldView,
    actions: Map<EntityId, InputAction>,
    entity: int,
)
    requires
        0 <= entity < world.entities.len(),
    ensures
        spec_core_tick(world, actions).entities[entity].score.is_some()
            == world.entities[entity].score.is_some(),
        spec_score_value(spec_core_tick(world, actions).entities[entity]) >= spec_score_value(
            world.entities[entity],
        ),
{
    let level = world.single_level();
    let record = world.entities[entity];
    let driven = spec_tick_step_motors(world.entities);
    let started = spec_process_inputs(driven, actions);
    let drifted = spec_tick_constant_motors(started);
    let scored = spec_tick_score(drifted);
    let run_over = spec_tick_road_collisions(scored, level);
    let carried = spec_tick_river_collisions(run_over, level);
    assert(driven[entity].score == record.score);
    assert(started[entity].score == driven[entity].score);
    assert(drifted[entity].score == started[entity].score);
    assert(scored[entity] == spec_score(drifted[entity]));
    assert(run_over[entity].score == scored[entity].score);
    assert(carried[entity].score == run_over[entity].score);
}

/// Score monotonicity, over any run of ticks: no score falls from one tick
/// to a later one.
pub proof fn lemma_game_loop_never_lowers_score(
    world: WorldView,
    ticks: Seq<Map<EntityId, InputAction>>,
    entity: int,
)
    requires
        0 <= entity < world.entities.len(),
    ensures
        spec_core_game_loop(world, ticks).entities.len() == world.entities.len(),
        spec_core_game_loop(world, ticks).entities[entity].score.is_some()
            == world.entities[entity].score.is_some(),
        spec_score_value(spec_core_game_loop(world, ticks).entities[entity]) >= spec_score_value(
            world.entities[entity],
        ),
    decreases ticks.len(),
{
    if ticks.len() > 0 {
        lemma_game_loop_never_lowers_score(world, ticks.drop_last(), entity);
        lemma_tick_never_lowers_score(
            spec_core_game_loop(world, ticks.drop_last()),
            ticks.last(),
            entity,
        );
    }
}

/// Whether `after` is `before` but for what a tick may change: position,
/// step motor, score, and a knockout gained, never lost. An entity that is
/// not controlled is not changed at all.
pub open spec fn spec_within_frame(before: EntityRecord, after: EntityRecord) -> bool {
    &&& after == (EntityRecord {
        position: after.position,
        step_motor: after.step_motor,
        score: after.score,
        knockout: after.knockout,
        ..before
    })
    &&& after.position.is_some() == before.position.is_some()
    &&& after.step_motor.is_some() == before.step_motor.is_some()
    &&& after.score.is_some() == before.score.is_some()
    &&& before.knockout.is_some() ==> after.knockout.is_some()
    &&& before.controlled.is_none() ==> after == before
    &&& before.step_motor.is_none() && before.crab.is_none() ==> after == (EntityRecord {
        position: after.position,
        ..before
    })
    &&& before.crab.is_some() && before.knockout.is_some() ==> after == before
}

/// A tick changes of an entity only its position, step motor and score, and
/// may knock it out. It leaves alone every entity that is not controlled
/// and every player that is knocked out, and it never lifts a knockout.
pub proof fn lemma_tick_frame(world: WorldView, actions: Map<EntityId, InputAction>, entity: int)
    requires
        0 <= entity < world.entities.len(),
    ensures
        spec_within_frame(world.entities[entity], spec_core_tick(world, actions).entities[entity]),
{
    let level = world.single_level();
    let record = world.entities[entity];
    let driven = spec_tick_step_motors(world.entities);
    let started = spec_process_inputs(driven, actions);
    let drifted = spec_tick_constant_motors(started);
    let scored = spec_tick_score(drifted);
    let run_over = spec_tick_road_collisions(scored, level);
    let carried = spec_tick_river_collisions(run_over, level);
    assert(driven[entity] == spec_step_motor(record));
    assert(spec_within_frame(record, driven[entity]));
    assert(started[entity] == spec_apply_input(driven[entity], spec_action_of(actions, entity)));
    assert(spec_within_frame(record, started[entity]));
    assert(drifted[entity] == spec_constant_motor(started[entity]));
    assert(spec_within_frame(record, drifted[entity]));
    assert(scored[entity] == spec_score(drifted[entity]));
    assert(spec_within_frame(record, scored[entity]));
    assert(run_over[entity] == spec_road_collision(scored[entity], scored, level));
    assert(spec_within_frame(record, run_over[entity]));
    assert(carried[entity] == spec_river_collision(run_over[entity], run_over, level));
    assert(spec_within_frame(record, carried[entity]));
}

/// What holds of one tick by [`lemma_tick_frame`] holds of any run of ticks.
pub proof fn lemma_game_loop_frame(
    world: WorldView,
    ticks: Seq<Map<EntityId, InputAction>>,
    entity: int,
)
    requires
        0 <= entity < world.entities.len(),
    ensures
        spec_core_game_loop(world, ticks).entities.len() == world.entities.len(),
        spec_within_frame(
            world.entities[entity],
            spec_core_game_loop(world, ticks).entities[entity],
        ),
    decreases ticks.len(),
{
    if ticks.len() > 0 {
        lemma_game_loop_frame(world, ticks.drop_last(), entity);
        lemma_tick_frame(spec_core_game_loop(world, ticks.drop_last()), ticks.last(), entity);
    }
}

/// A run of ticks is the run of its first `done` ticks followed by the run
/// of the rest.
pub proof fn lemma_game_loop_splits(
    world: WorldView,
    ticks: Seq<Map<EntityId, InputAction>>,
    done: int,
)
    requires
        0 <= done <= ticks.len(),
    ensures
        spec_core_game_loop(world, ticks) == spec_core_game_loop(
            spec_core_game_loop(world, ticks.take(done)),
            ticks.skip(done),
        ),
    decreases ticks.len(),
{
    if done == ticks.len() {
        assert(ticks.take(done) =~= ticks);
        assert(ticks.skip(done).len() == 0);
    } else {
        lemma_game_loop_splits(world, ticks.drop_last(), done);
        assert(ticks.drop_last().take(done) =~= ticks.take(done));
        assert(ticks.drop_last().skip(done) =~= ticks.skip(done).drop_last());
        assert(ticks.skip(done).last() == ticks.last());
    }
}

} // verus!
