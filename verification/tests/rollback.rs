use crabber::bundles::CrabBundle;
use crabber::components::{
    Car, ConstantMotor, Direction, Knockout, Level, LevelRow, Position, Raft, StepMotor,
};
use crabber::events::link_prediction;
use crabber::history::TickHistory;
use crabber::inputs::{EntityActionMap, InputAction};
use crabber::prediction::send_and_prepare_inputs;
use crabber::rollback::{
    latest_tick, receive_update_component_events, reconcile, reset_predictions,
};
use crabber::tick::run_core_game_loop;
use crabber::world::{EntityRecord, World};

fn level() -> Level {
    Level::new(vec![
        LevelRow::Grass,
        LevelRow::Road,
        LevelRow::River,
        LevelRow::Grass,
        LevelRow::Grass,
        LevelRow::Grass,
        LevelRow::Grass,
        LevelRow::Grass,
        LevelRow::Grass,
        LevelRow::Finish,
    ])
}

/// A client's world: a player, a car and a raft as the server shows them,
/// each with its prediction.
fn client_world() -> (World, [u64; 3], [u64; 3]) {
    let mut world = World::new();
    world.spawn_level(level());
    let player = world.spawn(CrabBundle::new().record());
    let car = world.spawn(EntityRecord::car((
        Car,
        Position::new(-288, -224, Direction::Right),
        ConstantMotor::new(3, Direction::Right),
    )));
    let raft = world.spawn(EntityRecord::raft((
        Raft,
        Position::new(0, -160, Direction::Left),
        ConstantMotor::new(2, Direction::Left),
    )));
    let sources = [player, car, raft];
    let mut predictions = [0u64; 3];
    for (index, source) in sources.iter().enumerate() {
        predictions[index] = link_prediction(&mut world, *source).unwrap();
    }
    (world, sources, predictions)
}

/// Runs `ticks` client ticks from `first`, the player pressing `action` all
/// the while, and returns the predictions as they were after each tick.
fn play(
    world: &mut World,
    history: &mut TickHistory,
    player: u64,
    first: u16,
    ticks: u16,
    action: InputAction,
) -> Vec<Vec<EntityRecord>> {
    let mut states = Vec::new();
    for tick in first..first + ticks {
        let mut queue = EntityActionMap::new();
        queue.insert(player, action);
        let prepared = send_and_prepare_inputs(&vec![tick], history, world, &mut queue);
        run_core_game_loop(&prepared.ticks, world);
        states.push(world.entities.clone());
    }
    states
}

#[test]
fn the_latest_tick_of_a_batch_is_found_across_the_wrap() {
    assert_eq!(latest_tick(&Vec::new()), None);
    assert_eq!(latest_tick(&vec![5]), Some(5));
    assert_eq!(latest_tick(&vec![5, 9, 7]), Some(9));
    assert_eq!(latest_tick(&vec![65534, 2, 65535]), Some(2));
    assert_eq!(latest_tick(&vec![3, 3, 3]), Some(3));
}

#[test]
fn a_reset_copies_the_source_onto_its_prediction() {
    let (mut world, sources, predictions) = client_world();
    let mut player = world.get(sources[0]).unwrap();
    player.position = Some(Position::new(128, 64, Direction::Left));
    player.step_motor = Some(StepMotor { step: Some(7) });
    world.set(sources[0], player);
    let mut car = world.get(sources[1]).unwrap();
    car.position = Some(Position::new(100, -224, Direction::Right));
    world.set(sources[1], car);
    reset_predictions(&mut world);
    let predicted_player = world.get(predictions[0]).unwrap();
    assert_eq!(predicted_player.position, Some(Position::new(128, 64, Direction::Left)));
    assert_eq!(predicted_player.step_motor, Some(StepMotor { step: Some(7) }));
    assert_eq!(
        world.get(predictions[1]).unwrap().position,
        Some(Position::new(100, -224, Direction::Right))
    );
    assert_eq!(
        world.get(predictions[2]).unwrap().position,
        Some(Position::new(0, -160, Direction::Left))
    );
    // the sources stay as they are
    assert_eq!(world.get(sources[0]), Some(player));
    assert_eq!(world.get(sources[1]), Some(car));
}

#[test]
fn a_knocked_out_prediction_is_not_set_back() {
    let (mut world, sources, predictions) = client_world();
    let mut predicted = world.get(predictions[0]).unwrap();
    predicted.knockout = Some(Knockout);
    predicted.position = Some(Position::new(1, 2, Direction::Down));
    world.set(predictions[0], predicted);
    reset_predictions(&mut world);
    assert_eq!(world.get(predictions[0]), Some(predicted));
    assert_ne!(world.get(sources[0]).unwrap().position, predicted.position);
}

#[test]
fn a_source_without_a_prediction_of_its_kind_is_passed_over() {
    let mut world = World::new();
    let mut source = CrabBundle::new().record();
    source.source_of = Some(crabber::world::SourceOf(40));
    world.spawn(source);
    // a player source that names an object
    let (mut linked, sources, predictions) = client_world();
    let mut player = linked.get(sources[0]).unwrap();
    player.source_of = Some(crabber::world::SourceOf(predictions[1]));
    player.position = Some(Position::new(5, 5, Direction::Up));
    linked.set(sources[0], player);
    let before = linked.entities.clone();
    reset_predictions(&mut world);
    reset_predictions(&mut linked);
    assert_eq!(world.get(0), Some(source));
    assert_eq!(linked.entities, before);
}

#[test]
fn without_an_update_there_is_no_correction() {
    let (mut world, sources, _) = client_world();
    let mut history = TickHistory::new();
    play(&mut world, &mut history, sources[0], 1, 5, InputAction::Up);
    let before = world.entities.clone();
    let replays = receive_update_component_events(&Vec::new(), &mut history, &mut world);
    assert!(replays.is_empty());
    assert_eq!(world.entities, before);
    assert_eq!(history.len(), 5);
    reconcile(&Vec::new(), &mut history, &mut world);
    assert_eq!(world.entities, before);
}

#[test]
fn an_update_resets_and_hands_out_the_newer_ticks() {
    let (mut world, sources, predictions) = client_world();
    let mut history = TickHistory::new();
    play(&mut world, &mut history, sources[0], 1, 8, InputAction::Up);
    let replays = receive_update_component_events(&vec![3, 6, 5], &mut history, &mut world);
    let ticks: Vec<u16> = replays.iter().map(|(tick, _)| *tick).collect();
    assert_eq!(ticks, vec![7, 8]);
    assert_eq!(replays[0].1.get(predictions[0]), Some(InputAction::Up));
    assert_eq!(history.len(), 2);
    // the predictions are back at what the sources say
    assert_eq!(
        world.get(predictions[0]).unwrap().position,
        world.get(sources[0]).unwrap().position
    );
    assert_eq!(
        world.get(predictions[1]).unwrap().position,
        world.get(sources[1]).unwrap().position
    );
}

#[test]
fn a_correction_that_agrees_with_the_prediction_changes_nothing() {
    for back in [0usize, 1, 5, 40] {
        let (mut world, sources, predictions) = client_world();
        let mut history = TickHistory::new();
        let states = play(&mut world, &mut history, sources[0], 1, 60, InputAction::Up);
        let now = world.entities.clone();
        // the server tells what the client had predicted for tick 60 - back
        let confirmed = &states[states.len() - 1 - back];
        for (source, prediction) in sources.iter().zip(predictions.iter()) {
            let predicted = confirmed[*prediction as usize];
            let mut record = world.get(*source).unwrap();
            record.position = predicted.position;
            record.step_motor = predicted.step_motor;
            world.set(*source, record);
        }
        let with_server_word = world.entities.clone();
        reconcile(&vec![60 - back as u16], &mut history, &mut world);
        assert_eq!(world.entities, with_server_word);
        for prediction in predictions {
            assert_eq!(world.get(prediction), Some(now[prediction as usize]));
        }
        assert_eq!(history.len(), back);
    }
}

#[test]
fn a_correction_that_disagrees_shows_after_the_replay() {
    let (mut world, sources, predictions) = client_world();
    let mut history = TickHistory::new();
    play(&mut world, &mut history, sources[0], 1, 10, InputAction::Right);
    // as of tick 8 the server has the car elsewhere
    let mut car = world.get(sources[1]).unwrap();
    car.position = Some(Position::new(0, -224, Direction::Right));
    world.set(sources[1], car);
    reconcile(&vec![8], &mut history, &mut world);
    // the reset, then the drift of ticks 9 and 10
    assert_eq!(
        world.get(predictions[1]).unwrap().position,
        Some(Position::new(6, -224, Direction::Right))
    );
}
