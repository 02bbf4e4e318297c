//! Reconciliation on a client: when the server's word on some tick arrives,
//! every prediction is set back to the state of its source, and the ticks
//! newer than the server's are run again on top.

use vstd::prelude::*;
use crate::history::{
    is_newer, spec_entries_of, spec_retained, spec_sequence_greater_than, Entry, Tick,
    TickHistory,
};
use crate::inputs::{EntityId, InputAction};
use crate::components::{LevelRow, Position};
use crate::tick::{
    lemma_game_loop_frame, lemma_game_loop_keeps_shape, lemma_game_loop_never_lowers_score,
    lemma_game_loop_splits, run_core_game_loop, spec_actions_of, spec_any_car_collides, spec_core_game_loop,
    spec_core_tick, spec_do_tiles_collide, spec_first_raft, spec_is_car, spec_process_inputs,
    spec_river_collision, spec_road_collision, spec_score_value, spec_tick_constant_motors,
    spec_tick_river_collisions, spec_tick_road_collisions, spec_tick_score,
    spec_tick_step_motors, TickActions,
};
use crate::world::{EntityRecord, World, WorldView};

verus! {

/// The newest of `ticks`: the first one, unless a later one is newer than
/// the newest before it. `None` where there is no tick.
pub open spec fn spec_latest_tick(ticks: Seq<Tick>) -> Option<Tick>
    decreases ticks.len(),
{
    if ticks.len() == 0 {
        None
    } else {
        match spec_latest_tick(ticks.drop_last()) {
            Some(latest) => if spec_sequence_greater_than(ticks.last(), latest) {
                Some(ticks.last())
            } else {
                Some(latest)
            },
            None => Some(ticks.last()),
        }
    }
}

/// The newest of the ticks that a batch of server updates refers to.
pub fn latest_tick(server_ticks: &Vec<Tick>) -> (latest: Option<Tick>)
    ensures
        latest == spec_latest_tick(server_ticks@),
{
    let mut latest_tick: Option<Tick> = None;
    let n = server_ticks.len();
    let mut i: usize = 0;
    while i < n
        invariant
            i <= n,
            n == server_ticks@.len(),
            latest_tick == spec_latest_tick(server_ticks@.take(i as int)),
        decreases n - i,
    {
        let server_tick = server_ticks[i];
        proof {
            assert(server_ticks@.take(i + 1).drop_last() =~= server_ticks@.take(i as int));
        }
        if let Some(last_tick) = latest_tick {
            if is_newer(server_tick, last_tick) {
                latest_tick = Some(server_tick);
            }
        } else {
            latest_tick = Some(server_tick);
        }
        i += 1;
    }
    proof {
        assert(server_ticks@.take(n as int) =~= server_ticks@);
    }
    latest_tick
}

/// A player as the server sees it: a source that shadows no one and is not
/// driven locally.
pub open spec fn spec_is_player_source(record: EntityRecord) -> bool {
    record.crab.is_some() && record.controlled.is_none() && record.position.is_some()
        && record.step_motor.is_some() && record.source_of.is_some()
}

/// A predicted player that a correction may set back: active, with a
/// position and a motor.
pub open spec fn spec_is_player_prediction(record: EntityRecord) -> bool {
    record.is_active_player() && record.position.is_some() && record.step_motor.is_some()
}

/// An object, car or raft or other, as the server sees it.
pub open spec fn spec_is_object_source(record: EntityRecord) -> bool {
    record.crab.is_none() && record.controlled.is_none() && record.position.is_some()
        && record.source_of.is_some()
}

/// A predicted object that a correction may set back.
pub open spec fn spec_is_object_prediction(record: EntityRecord) -> bool {
    record.crab.is_none() && record.controlled.is_some() && record.position.is_some()
}

/// `prediction` set back to `source`: a player takes the position and the
/// motor of a player source, an object the position of an object source;
/// both as they are, with nothing blended. Any other pair leaves
/// `prediction` as it is.
pub open spec fn spec_mirror(prediction: EntityRecord, source: EntityRecord) -> EntityRecord {
    if spec_is_player_source(source) && spec_is_player_prediction(prediction) {
        EntityRecord { position: source.position, step_motor: source.step_motor, ..prediction }
    } else if spec_is_object_source(source) && spec_is_object_prediction(prediction) {
        EntityRecord { position: source.position, ..prediction }
    } else {
        prediction
    }
}

/// Whether `source` names `entity` as its prediction.
pub open spec fn spec_is_source_of(source: EntityRecord, entity: int) -> bool {
    source.source_of matches Some(link) && link.0 == entity
}

/// The record of `entity` once the sources with ids below `upto` have been
/// mirrored onto their predictions, lowest id first.
pub open spec fn spec_reset_upto(entities: Seq<EntityRecord>, entity: int, upto: int) -> EntityRecord
    decreases upto,
{
    if upto <= 0 {
        entities[entity]
    } else {
        let so_far = spec_reset_upto(entities, entity, upto - 1);
        if spec_is_source_of(entities[upto - 1], entity) {
            spec_mirror(so_far, entities[upto - 1])
        } else {
            so_far
        }
    }
}

/// The table once every source has been mirrored onto its prediction. A
/// source whose prediction is missing, or is not of its kind, changes
/// nothing.
pub open spec fn spec_reset(entities: Seq<EntityRecord>) -> Seq<EntityRecord> {
    Seq::new(entities.len(), |entity: int| spec_reset_upto(entities, entity, entities.len() as int))
}

/// Mirroring leaves alone what is not controlled, sources among them.
proof fn lemma_reset_upto_keeps_sources(entities: Seq<EntityRecord>, entity: int, upto: int)
    requires
        0 <= entity < entities.len(),
        entities[entity].controlled.is_none(),
    ensures
        spec_reset_upto(entities, entity, upto) == entities[entity],
    decreases upto,
{
    if upto > 0 {
        lemma_reset_upto_keeps_sources(entities, entity, upto - 1);
    }
}

/// Sets every prediction back to the state of its source.
pub fn reset_predictions(world: &mut World)
    ensures
        final(world)@ == old(world)@.with_entities(spec_reset(old(world)@.entities)),
{
    let n = world.entities.len();
    let mut i: usize = 0;
    while i < n
        invariant
            i <= n,
            n == world.entities@.len(),
            n == old(world)@.entities.len(),
            world.levels == old(world).levels,
            forall|entity: int|
                0 <= entity < n ==> #[trigger] world.entities@[entity] == spec_reset_upto(
                    old(world)@.entities,
                    entity,
                    i as int,
                ),
        decreases n - i,
    {
        let source = world.entities[i];
        proof {
            lemma_reset_upto_controlled(old(world)@.entities, i as int, i as int);
            if source.controlled.is_none() {
                lemma_reset_upto_keeps_sources(old(world)@.entities, i as int, i as int);
            }
        }
        let ghost before = world.entities@;
        if source.controlled.is_none() {
            if let (Some(source_position), Some(link)) = (source.position, source.source_of) {
                if link.0 < n as u64 {
                    let mut prediction = world.entities[link.0 as usize];
                    if let Some(mut position) = prediction.position {
                        if prediction.controlled.is_some() {
                            if source.crab.is_some() {
                                if let (Some(source_motor), Some(mut motor)) = (
                                    source.step_motor,
                                    prediction.step_motor,
                                ) {
                                    if prediction.crab.is_some() && prediction.knockout.is_none() {
                                        position.mirror(&source_position);
                                        motor.mirror(&source_motor);
                                        prediction.position = Some(position);
                                        prediction.step_motor = Some(motor);
                                        world.entities.set(link.0 as usize, prediction);
                                    }
                                }
                            } else if prediction.crab.is_none() {
                                position.mirror(&source_position);
                                prediction.position = Some(position);
                                world.entities.set(link.0 as usize, prediction);
                            }
                        }
                    }
                }
            }
        }
        proof {
            let entities = old(world)@.entities;
            assert forall|entity: int| 0 <= entity < n implies #[trigger] world.entities@[entity]
                == spec_reset_upto(entities, entity, i + 1) by {
                assert(before[entity] == spec_reset_upto(entities, entity, i as int));
            }
        }
        i += 1;
    }
    proof {
        assert(world@.entities =~= spec_reset(old(world)@.entities));
        assert(world@.levels =~= old(world)@.levels);
    }
}

/// Mirroring never changes whether an entity is controlled.
proof fn lemma_reset_upto_controlled(entities: Seq<EntityRecord>, entity: int, upto: int)
    requires
        0 <= entity < entities.len(),
    ensures
        spec_reset_upto(entities, entity, upto).controlled == entities[entity].controlled,
    decreases upto,
{
    if upto > 0 {
        lemma_reset_upto_controlled(entities, entity, upto - 1);
    }
}

/// Handles one batch of server updates, each given by the server tick that
/// it reflects. With no update nothing happens and nothing is handed out.
/// Otherwise every prediction is set back to its source, the log drops
/// what is not newer than the newest tick of the batch, and the entries
/// that are left are handed out, oldest first, to be run again.
pub fn receive_update_component_events(
    server_ticks: &Vec<Tick>,
    tick_history: &mut TickHistory,
    world: &mut World,
) -> (replays: Vec<TickActions>)
    requires
        old(tick_history).wf(),
    ensures
        final(tick_history).wf(),
        final(tick_history).spec_capacity() == old(tick_history).spec_capacity(),
        match spec_latest_tick(server_ticks@) {
            Some(latest) => {
                &&& final(world)@ == old(world)@.with_entities(spec_reset(old(world)@.entities))
                &&& final(tick_history)@ == spec_retained(old(tick_history)@, latest)
                &&& spec_entries_of(replays@) == final(tick_history)@
            },
            None => {
                &&& final(world)@ == old(world)@
                &&& final(tick_history)@ == old(tick_history)@
                &&& replays@.len() == 0
            },
        },
{
    // only the newest tick of the batch matters
    if let Some(latest_tick) = latest_tick(server_ticks) {
        reset_predictions(world);
        tick_history.replays(latest_tick)
    } else {
        Vec::new()
    }
}

/// The world after a correction as of `latest`: predictions set back to
/// their sources, then one tick for each entry of `entries` that
/// [`spec_retained`] keeps.
pub open spec fn spec_reconciled(world: WorldView, entries: Seq<Entry>, latest: Tick) -> WorldView {
    spec_core_game_loop(
        world.with_entities(spec_reset(world.entities)),
        spec_actions_in(spec_retained(entries, latest)),
    )
}

/// The actions of each entry of `entries`, without the tick numbers.
pub open spec fn spec_actions_in(entries: Seq<Entry>) -> Seq<Map<EntityId, InputAction>> {
    Seq::new(entries.len(), |i: int| entries[i].1)
}

/// Handles one batch of server updates and runs the replay: the whole of a
/// correction. With no update in the batch the world stays as it is.
pub fn reconcile(server_ticks: &Vec<Tick>, tick_history: &mut TickHistory, world: &mut World)
    requires
        old(tick_history).wf(),
    ensures
        final(tick_history).wf(),
        final(tick_history).spec_capacity() == old(tick_history).spec_capacity(),
        match spec_latest_tick(server_ticks@) {
            Some(latest) => {
                &&& final(world)@ == spec_reconciled(old(world)@, old(tick_history)@, latest)
                &&& final(tick_history)@ == spec_retained(old(tick_history)@, latest)
            },
            None => {
                &&& final(world)@ == old(world)@
                &&& final(tick_history)@ == old(tick_history)@
            },
        },
{
    let replays = receive_update_component_events(server_ticks, tick_history, world);
    proof {
        assert(spec_actions_of(replays@) =~= spec_actions_in(spec_entries_of(replays@)));
    }
    run_core_game_loop(&replays, world);
}

/// How an entity of a replay relates to the same entity of the run that
/// the replay repeats, where `last` is what that run ended with. An object
/// is the same in both. A player that the run ended by knocking out stands
/// in the replay where the run left it. Any other player is the same in
/// both but for its score, which in the replay is already what the run
/// ended with.
pub open spec fn spec_tracks(played: EntityRecord, replayed: EntityRecord, last: EntityRecord) -> bool {
    &&& played.controlled == replayed.controlled
    &&& played.controlled == last.controlled
    &&& played.controlled.is_some() ==> played.crab == replayed.crab
    &&& played.controlled.is_some() ==> played.crab == last.crab
    &&& played.controlled.is_some() ==> if played.crab.is_none() {
        replayed == played
    } else if last.knockout.is_some() {
        replayed == last
    } else {
        &&& replayed == (EntityRecord { score: last.score, ..played })
        &&& played.knockout.is_none()
        &&& played.score.is_some() == last.score.is_some()
        &&& spec_score_value(played) <= spec_score_value(last)
    }
}

/// [`spec_tracks`] of every entity of two tables.
pub open spec fn spec_tracking(
    played: Seq<EntityRecord>,
    replayed: Seq<EntityRecord>,
    last: Seq<EntityRecord>,
) -> bool {
    &&& played.len() == replayed.len()
    &&& played.len() == last.len()
    &&& forall|i: int|
        0 <= i < played.len() ==> spec_tracks(#[trigger] played[i], replayed[i], last[i])
}

/// Whether `record`, a state of the played run, is on the way to `last`:
/// a player that the run ends without knocking out is not knocked out yet,
/// and its score is no higher than at the end.
pub open spec fn spec_leads_to(record: EntityRecord, last: EntityRecord) -> bool {
    record.controlled.is_some() && record.crab.is_some() && last.knockout.is_none() ==> {
        &&& record.knockout.is_none()
        &&& record.score.is_some() == last.score.is_some()
        &&& spec_score_value(record) <= spec_score_value(last)
    }
}

proof fn lemma_same_cars(
    played: Seq<EntityRecord>,
    replayed: Seq<EntityRecord>,
    last: Seq<EntityRecord>,
    position: Position,
)
    requires
        spec_tracking(played, replayed, last),
    ensures
        spec_any_car_collides(played, position) == spec_any_car_collides(replayed, position),
{
    if spec_any_car_collides(played, position) {
        let j = choose|j: int|
            0 <= j < played.len() && spec_is_car(#[trigger] played[j]) && spec_do_tiles_collide(
                position,
                played[j].position.unwrap(),
            );
        assert(spec_tracks(played[j], replayed[j], last[j]));
        assert(spec_is_car(replayed[j]));
    }
    if spec_any_car_collides(replayed, position) {
        let j = choose|j: int|
            0 <= j < replayed.len() && spec_is_car(#[trigger] replayed[j]) && spec_do_tiles_collide(
                position,
                replayed[j].position.unwrap(),
            );
        assert(spec_tracks(played[j], replayed[j], last[j]));
        assert(spec_is_car(played[j]));
    }
}

proof fn lemma_same_rafts(
    played: Seq<EntityRecord>,
    replayed: Seq<EntityRecord>,
    last: Seq<EntityRecord>,
    position: Position,
    from: int,
)
    requires
        spec_tracking(played, replayed, last),
        0 <= from,
    ensures
        spec_first_raft(played, position, from) == spec_first_raft(replayed, position, from),
        spec_first_raft(played, position, from) matches Some(raft) ==> 0 <= raft
            < played.len() && played[raft].constant_motor == replayed[raft].constant_motor,
    decreases played.len() - from,
{
    if from < played.len() {
        assert(spec_tracks(played[from], replayed[from], last[from]));
        lemma_same_rafts(played, replayed, last, position, from + 1);
    }
}

proof fn lemma_step_motors_track(
    played: Seq<EntityRecord>,
    replayed: Seq<EntityRecord>,
    last: Seq<EntityRecord>,
)
    requires
        spec_tracking(played, replayed, last),
    ensures
        spec_tracking(spec_tick_step_motors(played), spec_tick_step_motors(replayed), last),
{
    let after = spec_tick_step_motors(played);
    let replayed_after = spec_tick_step_motors(replayed);
    assert forall|i: int| 0 <= i < played.len() implies spec_tracks(
        #[trigger] after[i],
        replayed_after[i],
        last[i],
    ) by {
        assert(spec_tracks(played[i], replayed[i], last[i]));
    }
}

proof fn lemma_inputs_track(
    played: Seq<EntityRecord>,
    replayed: Seq<EntityRecord>,
    last: Seq<EntityRecord>,
    actions: Map<EntityId, InputAction>,
)
    requires
        spec_tracking(played, replayed, last),
    ensures
        spec_tracking(
            spec_process_inputs(played, actions),
            spec_process_inputs(replayed, actions),
            last,
        ),
{
    let after = spec_process_inputs(played, actions);
    let replayed_after = spec_process_inputs(replayed, actions);
    assert forall|i: int| 0 <= i < played.len() implies spec_tracks(
        #[trigger] after[i],
        replayed_after[i],
        last[i],
    ) by {
        assert(spec_tracks(played[i], replayed[i], last[i]));
    }
}

proof fn lemma_constant_motors_track(
    played: Seq<EntityRecord>,
    replayed: Seq<EntityRecord>,
    last: Seq<EntityRecord>,
)
    requires
        spec_tracking(played, replayed, last),
    ensures
        spec_tracking(
            spec_tick_constant_motors(played),
            spec_tick_constant_motors(replayed),
            last,
        ),
{
    let after = spec_tick_constant_motors(played);
    let replayed_after = spec_tick_constant_motors(replayed);
    assert forall|i: int| 0 <= i < played.len() implies spec_tracks(
        #[trigger] after[i],
        replayed_after[i],
        last[i],
    ) by {
        assert(spec_tracks(played[i], replayed[i], last[i]));
    }
}

proof fn lemma_score_tracks(
    played: Seq<EntityRecord>,
    replayed: Seq<EntityRecord>,
    last: Seq<EntityRecord>,
)
    requires
        spec_tracking(played, replayed, last),
        forall|i: int|
            0 <= i < last.len() ==> spec_leads_to(#[trigger] spec_tick_score(played)[i], last[i]),
    ensures
        spec_tracking(spec_tick_score(played), spec_tick_score(replayed), last),
{
    let after = spec_tick_score(played);
    let replayed_after = spec_tick_score(replayed);
    assert forall|i: int| 0 <= i < played.len() implies spec_tracks(
        #[trigger] after[i],
        replayed_after[i],
        last[i],
    ) by {
        assert(spec_tracks(played[i], replayed[i], last[i]));
        assert(spec_leads_to(after[i], last[i]));
    }
}

proof fn lemma_road_tracks(
    played: Seq<EntityRecord>,
    replayed: Seq<EntityRecord>,
    last: Seq<EntityRecord>,
    level: Option<Seq<LevelRow>>,
)
    requires
        spec_tracking(played, replayed, last),
        forall|i: int|
            0 <= i < last.len() ==> spec_leads_to(
                #[trigger] spec_tick_road_collisions(played, level)[i],
                last[i],
            ),
    ensures
        spec_tracking(
            spec_tick_road_collisions(played, level),
            spec_tick_road_collisions(replayed, level),
            last,
        ),
{
    let after = spec_tick_road_collisions(played, level);
    let replayed_after = spec_tick_road_collisions(replayed, level);
    assert forall|i: int| 0 <= i < played.len() implies spec_tracks(
        #[trigger] after[i],
        replayed_after[i],
        last[i],
    ) by {
        assert(spec_tracks(played[i], replayed[i], last[i]));
        assert(spec_leads_to(after[i], last[i]));
        if played[i].position.is_some() {
            lemma_same_cars(played, replayed, last, played[i].position.unwrap());
        }
    }
}

proof fn lemma_river_tracks(
    played: Seq<EntityRecord>,
    replayed: Seq<EntityRecord>,
    last: Seq<EntityRecord>,
    level: Option<Seq<LevelRow>>,
)
    requires
        spec_tracking(played, replayed, last),
        forall|i: int|
            0 <= i < last.len() ==> spec_leads_to(
                #[trigger] spec_tick_river_collisions(played, level)[i],
                last[i],
            ),
    ensures
        spec_tracking(
            spec_tick_river_collisions(played, level),
            spec_tick_river_collisions(replayed, level),
            last,
        ),
{
    let after = spec_tick_river_collisions(played, level);
    let replayed_after = spec_tick_river_collisions(replayed, level);
    assert forall|i: int| 0 <= i < played.len() implies spec_tracks(
        #[trigger] after[i],
        replayed_after[i],
        last[i],
    ) by {
        assert(spec_tracks(played[i], replayed[i], last[i]));
        assert(spec_leads_to(after[i], last[i]));
        if played[i].position.is_some() {
            lemma_same_rafts(played, replayed, last, played[i].position.unwrap(), 0);
        }
    }
}

/// One tick keeps a replay on the track of the run it repeats, as long as
/// the run, after that tick, is still on the way to its end.
proof fn lemma_tick_tracks(
    played: WorldView,
    replayed: WorldView,
    last: Seq<EntityRecord>,
    actions: Map<EntityId, InputAction>,
)
    requires
        played.levels == replayed.levels,
        spec_tracking(played.entities, replayed.entities, last),
        forall|i: int|
            0 <= i < last.len() ==> spec_leads_to(
                #[trigger] spec_core_tick(played, actions).entities[i],
                last[i],
            ),
    ensures
        spec_tracking(
            spec_core_tick(played, actions).entities,
            spec_core_tick(replayed, actions).entities,
            last,
        ),
{
    let level = played.single_level();
    let n = played.entities.len() as int;
    let x0 = played.entities;
    let y0 = replayed.entities;
    let x1 = spec_tick_step_motors(x0);
    let y1 = spec_tick_step_motors(y0);
    let x2 = spec_process_inputs(x1, actions);
    let y2 = spec_process_inputs(y1, actions);
    let x3 = spec_tick_constant_motors(x2);
    let y3 = spec_tick_constant_motors(y2);
    let x4 = spec_tick_score(x3);
    let y4 = spec_tick_score(y3);
    let x5 = spec_tick_road_collisions(x4, level);
    let y5 = spec_tick_road_collisions(y4, level);
    let x6 = spec_tick_river_collisions(x5, level);
    let y6 = spec_tick_river_collisions(y5, level);
    assert(spec_core_tick(played, actions).entities == x6);
    assert(spec_core_tick(replayed, actions).entities == y6);
    lemma_step_motors_track(x0, y0, last);
    lemma_inputs_track(x1, y1, last, actions);
    lemma_constant_motors_track(x2, y2, last);
    assert forall|i: int| 0 <= i < n implies spec_leads_to(#[trigger] x5[i], last[i]) by {
        assert(spec_leads_to(x6[i], last[i]));
        assert(x6[i] == spec_river_collision(x5[i], x5, level));
    }
    assert forall|i: int| 0 <= i < n implies spec_leads_to(#[trigger] x4[i], last[i]) by {
        assert(spec_leads_to(x5[i], last[i]));
        assert(x5[i] == spec_road_collision(x4[i], x4, level));
    }
    lemma_score_tracks(x3, y3, last);
    lemma_road_tracks(x4, y4, last, level);
    lemma_river_tracks(x5, y5, last, level);
}

/// A run of ticks keeps a replay on the track of the run it repeats, as
/// long as the run is on the way to its end after each of those ticks.
proof fn lemma_game_loop_tracks(
    played: WorldView,
    replayed: WorldView,
    last: Seq<EntityRecord>,
    ticks: Seq<Map<EntityId, InputAction>>,
)
    requires
        played.levels == replayed.levels,
        spec_tracking(played.entities, replayed.entities, last),
        forall|done: int, i: int|
            0 <= done <= ticks.len() && 0 <= i < last.len() ==> spec_leads_to(
                #[trigger] spec_core_game_loop(played, ticks.take(done)).entities[i],
                last[i],
            ),
    ensures
        spec_tracking(
            spec_core_game_loop(played, ticks).entities,
            spec_core_game_loop(replayed, ticks).entities,
            last,
        ),
        spec_core_game_loop(played, ticks).levels == spec_core_game_loop(replayed, ticks).levels,
    decreases ticks.len(),
{
    lemma_game_loop_keeps_shape(played, ticks);
    lemma_game_loop_keeps_shape(replayed, ticks);
    if ticks.len() > 0 {
        let init = ticks.drop_last();
        assert forall|done: int, i: int|
            0 <= done <= init.len() && 0 <= i < last.len() implies spec_leads_to(
            #[trigger] spec_core_game_loop(played, init.take(done)).entities[i],
            last[i],
        ) by {
            assert(init.take(done) =~= ticks.take(done));
        }
        lemma_game_loop_tracks(played, replayed, last, init);
        let middle = spec_core_game_loop(played, init);
        let replayed_middle = spec_core_game_loop(replayed, init);
        assert forall|i: int| 0 <= i < last.len() implies spec_leads_to(
            #[trigger] spec_core_tick(middle, ticks.last()).entities[i],
            last[i],
        ) by {
            assert(ticks.take(ticks.len() as int) =~= ticks);
            assert(spec_leads_to(
                spec_core_game_loop(played, ticks.take(ticks.len() as int)).entities[i],
                last[i],
            ));
        }
        lemma_tick_tracks(middle, replayed_middle, last, ticks.last());
    }
}

/// Whether mirroring `source` onto `prediction` has any effect: both are
/// players, or both are objects, with the components that a mirror needs.
pub open spec fn spec_applies(source: EntityRecord, prediction: EntityRecord) -> bool {
    (spec_is_player_source(source) && spec_is_player_prediction(prediction)) || (
    spec_is_object_source(source) && spec_is_object_prediction(prediction))
}

/// Whether `source` holds what `predicted` held: the same position, and
/// for a player the same motor.
pub open spec fn spec_agrees(source: EntityRecord, predicted: EntityRecord) -> bool {
    source.position == predicted.position && (source.crab.is_some() ==> source.step_motor
        == predicted.step_motor)
}

/// Whether some source with an id below `upto` is mirrored onto `entity`.
pub open spec fn spec_has_source_below(entities: Seq<EntityRecord>, entity: int, upto: int) -> bool
    decreases upto,
{
    upto > 0 && ((spec_is_source_of(entities[upto - 1], entity) && spec_applies(
        entities[upto - 1],
        entities[entity],
    )) || spec_has_source_below(entities, entity, upto - 1))
}

proof fn lemma_has_source_below(entities: Seq<EntityRecord>, entity: int, source: int, upto: int)
    requires
        0 <= source < upto,
        spec_is_source_of(entities[source], entity),
        spec_applies(entities[source], entities[entity]),
    ensures
        spec_has_source_below(entities, entity, upto),
    decreases upto,
{
    if source < upto - 1 {
        lemma_has_source_below(entities, entity, source, upto - 1);
    }
}

/// `prediction` with the position of `predicted`, and with its motor too if
/// `prediction` is a player.
pub open spec fn spec_set_back(prediction: EntityRecord, predicted: EntityRecord) -> EntityRecord {
    if prediction.crab.is_some() {
        EntityRecord {
            position: predicted.position,
            step_motor: predicted.step_motor,
            ..prediction
        }
    } else {
        EntityRecord { position: predicted.position, ..prediction }
    }
}

/// Where every source that is mirrored onto an entity agrees with
/// `predicted`, the entity comes out of the reset set back to `predicted`
/// if it has such a source, and as it was if it has none.
proof fn lemma_reset_upto_agrees(
    entities: Seq<EntityRecord>,
    predicted: EntityRecord,
    entity: int,
    upto: int,
)
    requires
        0 <= entity < entities.len(),
        0 <= upto <= entities.len(),
        forall|source: int|
            0 <= source < upto && spec_is_source_of(#[trigger] entities[source], entity)
                && spec_applies(entities[source], entities[entity]) ==> spec_agrees(
                entities[source],
                predicted,
            ),
    ensures
        spec_reset_upto(entities, entity, upto) == if spec_has_source_below(
            entities,
            entity,
            upto,
        ) {
            spec_set_back(entities[entity], predicted)
        } else {
            entities[entity]
        },
        spec_has_source_below(entities, entity, upto) ==> predicted.position.is_some() && (
        entities[entity].crab.is_some() ==> predicted.step_motor.is_some()) && (
        spec_is_player_prediction(entities[entity]) || spec_is_object_prediction(
            entities[entity],
        )),
    decreases upto,
{
    if upto > 0 {
        lemma_reset_upto_agrees(entities, predicted, entity, upto - 1);
        let source = entities[upto - 1];
        if spec_is_source_of(source, entity) && spec_applies(source, entities[entity]) {
            assert(spec_agrees(source, predicted));
        }
    }
}

/// Replay equivalence: a correction that tells the client what it had
/// predicted anyway changes nothing.
///
/// `predicted` is the client's world at the tick that the server speaks of,
/// `ticks` are the actions of the ticks logged since, and `now` is the
/// client's world when the correction arrives: its predictions are where
/// running `ticks` on `predicted` has brought them, and its sources hold
/// the server's word. Where every source agrees with what the client had
/// predicted for that tick, setting the predictions back and running
/// `ticks` again ends in `now`, exactly.
///
/// The law is stated of worlds built as a client builds them: every
/// controlled entity, but for players that are knocked out, is the
/// prediction of some source of its kind, and only players have step
/// motors.
pub proof fn lemma_replay_reproduces_prediction(
    predicted: WorldView,
    now: WorldView,
    ticks: Seq<Map<EntityId, InputAction>>,
)
    requires
        now.entities.len() == predicted.entities.len(),
        now.levels == predicted.levels,
        // the predictions are where the logged ticks have brought them
        forall|i: int|
            0 <= i < now.entities.len() && predicted.entities[i].controlled.is_some()
                ==> #[trigger] now.entities[i] == spec_core_game_loop(
                predicted,
                ticks,
            ).entities[i],
        forall|i: int|
            0 <= i < now.entities.len() && predicted.entities[i].controlled.is_none() ==> (
            #[trigger] now.entities[i]).controlled.is_none(),
        // the world is built as a client builds it
        forall|i: int|
            0 <= i < now.entities.len() && (#[trigger] predicted.entities[i]).controlled.is_some()
                && predicted.entities[i].crab.is_none()
                ==> predicted.entities[i].step_motor.is_none(),
        forall|i: int|
            0 <= i < now.entities.len() && (#[trigger] now.entities[i]).controlled.is_some() && !(
            now.entities[i].crab.is_some() && now.entities[i].knockout.is_some())
                ==> exists|source: int|
                0 <= source < now.entities.len() && spec_is_source_of(
                    #[trigger] now.entities[source],
                    i,
                ) && spec_applies(now.entities[source], now.entities[i]),
        // the server agrees with the client
        forall|source: int, i: int|
            0 <= source < now.entities.len() && 0 <= i < now.entities.len() && spec_is_source_of(
                #[trigger] now.entities[source],
                i,
            ) && spec_applies(now.entities[source], #[trigger] now.entities[i]) ==> spec_agrees(
                now.entities[source],
                predicted.entities[i],
            ),
    ensures
        spec_core_game_loop(now.with_entities(spec_reset(now.entities)), ticks) == now,
{
    let n = now.entities.len() as int;
    let last = spec_core_game_loop(predicted, ticks);
    let set_back = now.with_entities(spec_reset(now.entities));
    let replayed = spec_core_game_loop(set_back, ticks);
    lemma_game_loop_keeps_shape(predicted, ticks);
    lemma_game_loop_keeps_shape(set_back, ticks);
    // the world set back is on the track of the predicted one
    assert forall|i: int| 0 <= i < n implies spec_tracks(
        #[trigger] predicted.entities[i],
        set_back.entities[i],
        last.entities[i],
    ) by {
        lemma_game_loop_frame(predicted, ticks, i);
        lemma_game_loop_never_lowers_score(predicted, ticks, i);
        lemma_reset_upto_controlled(now.entities, i, n);
        assert forall|source: int|
            0 <= source < n && spec_is_source_of(#[trigger] now.entities[source], i)
                && spec_applies(now.entities[source], now.entities[i]) implies spec_agrees(
            now.entities[source],
            predicted.entities[i],
        ) by {
            assert(spec_agrees(now.entities[source], predicted.entities[i]));
        }
        lemma_reset_upto_agrees(now.entities, predicted.entities[i], i, n);
        assert(set_back.entities[i] == spec_reset_upto(now.entities, i, n));
        if now.entities[i].controlled.is_some() && !(now.entities[i].crab.is_some()
            && now.entities[i].knockout.is_some()) {
            let source = choose|source: int|
                0 <= source < n && spec_is_source_of(#[trigger] now.entities[source], i)
                    && spec_applies(now.entities[source], now.entities[i]);
            lemma_has_source_below(now.entities, i, source, n);
        }
        if predicted.entities[i].controlled.is_some() {
            assert(now.entities[i] == last.entities[i]);
        } else {
            assert(now.entities[i].controlled.is_none());
            lemma_reset_upto_keeps_sources(now.entities, i, n);
        }
    }
    assert(spec_tracking(predicted.entities, set_back.entities, last.entities));
    // the predicted run is on the way to its end after each tick
    assert forall|done: int, i: int| 0 <= done <= ticks.len() && 0 <= i < n implies spec_leads_to(
        #[trigger] spec_core_game_loop(predicted, ticks.take(done)).entities[i],
        last.entities[i],
    ) by {
        let middle = spec_core_game_loop(predicted, ticks.take(done));
        lemma_game_loop_keeps_shape(predicted, ticks.take(done));
        lemma_game_loop_splits(predicted, ticks, done);
        lemma_game_loop_frame(middle, ticks.skip(done), i);
        lemma_game_loop_never_lowers_score(middle, ticks.skip(done), i);
    }
    lemma_game_loop_tracks(predicted, set_back, last.entities, ticks);
    assert forall|i: int| 0 <= i < n implies replayed.entities[i] == now.entities[i] by {
        assert(spec_tracks(last.entities[i], replayed.entities[i], last.entities[i]));
        lemma_game_loop_frame(predicted, ticks, i);
        if predicted.entities[i].controlled.is_some() {
            assert(now.entities[i] == last.entities[i]);
        } else {
            assert(now.entities[i].controlled.is_none());
            lemma_reset_upto_keeps_sources(now.entities, i, n);
            lemma_game_loop_frame(set_back, ticks, i);
        }
    }
    assert(replayed.entities =~= now.entities);
    assert(replayed =~= now);
}

/// Replay equivalence, said of [`reconcile`]: where the server's word as
/// of `latest` is what the client had predicted, and the log holds the
/// ticks run since, a correction leaves the world as it found it.
pub proof fn lemma_agreeing_correction_changes_nothing(
    predicted: WorldView,
    now: WorldView,
    entries: Seq<Entry>,
    latest: Tick,
)
    requires
        now.entities.len() == predicted.entities.len(),
        now.levels == predicted.levels,
        forall|i: int|
            0 <= i < now.entities.len() && predicted.entities[i].controlled.is_some()
                ==> #[trigger] now.entities[i] == spec_core_game_loop(
                predicted,
                spec_actions_in(spec_retained(entries, latest)),
            ).entities[i],
        forall|i: int|
            0 <= i < now.entities.len() && predicted.entities[i].controlled.is_none() ==> (
            #[trigger] now.entities[i]).controlled.is_none(),
        forall|i: int|
            0 <= i < now.entities.len() && (#[trigger] predicted.entities[i]).controlled.is_some()
                && predicted.entities[i].crab.is_none()
                ==> predicted.entities[i].step_motor.is_none(),
        forall|i: int|
            0 <= i < now.entities.len() && (#[trigger] now.entities[i]).controlled.is_some() && !(
            now.entities[i].crab.is_some() && now.entities[i].knockout.is_some())
                ==> exists|source: int|
                0 <= source < now.entities.len() && spec_is_source_of(
                    #[trigger] now.entities[source],
                    i,
                ) && spec_applies(now.entities[source], now.entities[i]),
        forall|source: int, i: int|
            0 <= source < now.entities.len() && 0 <= i < now.entities.len() && spec_is_source_of(
                #[trigger] now.entities[source],
                i,
            ) && spec_applies(now.entities[source], #[trigger] now.entities[i]) ==> spec_agrees(
                now.entities[source],
                predicted.entities[i],
            ),
    ensures
        spec_reconciled(now, entries, latest) == now,
{
    lemma_replay_reproduces_prediction(
        predicted,
        now,
        spec_actions_in(spec_retained(entries, latest)),
    );
}

} // verus!
