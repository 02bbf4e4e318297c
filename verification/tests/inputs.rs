use crabber::bundles::{controlled, CrabBundle};
use crabber::components::{Direction, Knockout, Position, StepMotor};
use crabber::controller::{get_action, queue_inputs, register_inputs, Action, PlayerActionState};
use crabber::events::{
    link_prediction, receive_entity_assignment_message, receive_insert_component_events,
};
use crabber::history::TickHistory;
use crabber::inputs::{EntityActionMap, InputAction};
use crabber::messages::{InputMessage, PlayerAssignmentMessage};
use crabber::prediction::{predicted_actions, send_and_prepare_inputs};
use crabber::state::AppState;
use crabber::world::{EntityRecord, PredictionOf, SourceOf, World};
use crabber::components::{Car, ConstantMotor, Controlled, Raft};

fn held(up: bool, down: bool, left: bool, right: bool) -> PlayerActionState {
    PlayerActionState { up, down, left, right }
}

#[test]
fn actions_map_to_the_directions_of_their_names() {
    assert_eq!(InputAction::Up.get_direction(), Direction::Up);
    assert_eq!(InputAction::Down.get_direction(), Direction::Down);
    assert_eq!(InputAction::Left.get_direction(), Direction::Left);
    assert_eq!(InputAction::Right.get_direction(), Direction::Right);
}

#[test]
fn the_last_action_queued_for_an_entity_wins() {
    let mut queue = EntityActionMap::new();
    assert_eq!(queue.get(3), None);
    assert_eq!(queue.insert(3, InputAction::Up), None);
    assert_eq!(queue.insert(4, InputAction::Left), None);
    assert_eq!(queue.insert(3, InputAction::Down), Some(InputAction::Up));
    assert_eq!(queue.get(3), Some(InputAction::Down));
    assert_eq!(queue.get(4), Some(InputAction::Left));
    assert_eq!(queue.get(5), None);
}

#[test]
fn clear_and_drain_empty_the_queue() {
    let mut queue = EntityActionMap::new();
    queue.insert(1, InputAction::Up);
    queue.insert(2, InputAction::Right);
    let mut entries = queue.drain();
    entries.sort_by_key(|entry| entry.0);
    assert_eq!(entries, vec![(1, InputAction::Up), (2, InputAction::Right)]);
    assert_eq!(queue.get(1), None);
    assert!(queue.drain().is_empty());
    queue.insert(1, InputAction::Up);
    queue.clear();
    assert_eq!(queue.get(1), None);
    assert!(EntityActionMap::default().drain().is_empty());
}

#[test]
fn a_copy_of_the_queue_goes_its_own_way() {
    let mut queue = EntityActionMap::new();
    queue.insert(1, InputAction::Up);
    let mut copy = queue.clone();
    assert_eq!(copy.get(1), Some(InputAction::Up));
    copy.insert(1, InputAction::Down);
    copy.insert(2, InputAction::Left);
    assert_eq!(queue.get(1), Some(InputAction::Up));
    assert_eq!(queue.get(2), None);
}

#[test]
fn up_goes_before_down_before_left_before_right() {
    assert_eq!(get_action(&held(false, false, false, false)), None);
    assert_eq!(get_action(&held(true, true, true, true)), Some(InputAction::Up));
    assert_eq!(get_action(&held(false, true, true, true)), Some(InputAction::Down));
    assert_eq!(get_action(&held(false, false, true, true)), Some(InputAction::Left));
    assert_eq!(get_action(&held(false, false, false, true)), Some(InputAction::Right));
    assert!(held(true, false, false, false).pressed(Action::Up));
    assert!(!held(true, false, false, false).pressed(Action::Down));
    assert!(held(false, false, true, false).pressed(Action::Left));
    assert!(held(false, false, false, true).pressed(Action::Right));
    assert!(!held(true, true, true, true).pressed(Action::Menu));
}

#[test]
fn nothing_is_queued_for_a_knocked_out_entity() {
    let mut world = World::new();
    let active = world.spawn(controlled(CrabBundle::new().record()));
    let mut out = controlled(CrabBundle::new().record());
    out.knockout = Some(Knockout);
    let out = world.spawn(out);
    let mut queue = EntityActionMap::new();
    queue_inputs(
        &world,
        &vec![
            (active, held(false, false, true, false)),
            (out, held(true, false, false, false)),
            (77, held(true, false, false, false)),
            (active, held(false, false, false, false)),
        ],
        &mut queue,
    );
    assert_eq!(queue.get(active), Some(InputAction::Left));
    assert_eq!(queue.get(out), None);
    assert_eq!(queue.get(77), None);
    queue_inputs(&world, &vec![(active, held(false, false, false, true))], &mut queue);
    assert_eq!(queue.get(active), Some(InputAction::Right));
}

#[test]
fn controllers_can_steer_without_a_queue() {
    let mut world = World::new();
    let idle = world.spawn(controlled(CrabBundle::new().record()));
    let mut leaping = controlled(CrabBundle::new().record());
    leaping.step_motor = Some(StepMotor { step: Some(9) });
    let leaping_id = world.spawn(leaping);
    register_inputs(
        &vec![
            (idle, held(false, true, false, false)),
            (leaping_id, held(false, true, false, false)),
            (40, held(true, false, false, false)),
        ],
        &mut world,
    );
    let record = world.get(idle).unwrap();
    assert_eq!(record.step_motor, Some(StepMotor { step: Some(0) }));
    assert_eq!(record.position, Some(Position::new(0, -288, Direction::Down)));
    assert_eq!(world.get(leaping_id).unwrap(), leaping);
    assert_eq!(world.len(), 2);
}

#[test]
fn a_source_and_its_prediction_are_linked_together() {
    let mut world = World::new();
    let mut source_record = CrabBundle::new().record();
    source_record.position = Some(Position::new(64, 0, Direction::Left));
    let source = world.spawn(source_record);
    let prediction = link_prediction(&mut world, source).unwrap();
    assert_eq!(prediction, 1);
    let source_after = world.get(source).unwrap();
    assert_eq!(source_after.source_of, Some(SourceOf(prediction)));
    assert_eq!(source_after.controlled, None);
    assert_eq!(source_after.prediction_of, None);
    let twin = world.get(prediction).unwrap();
    assert_eq!(twin.prediction_of, Some(PredictionOf(source)));
    assert_eq!(twin.controlled, Some(Controlled));
    assert_eq!(twin.source_of, None);
    assert_eq!(twin.position, source_record.position);
    assert_eq!(twin.crab, source_record.crab);
    assert_eq!(twin.step_motor, source_record.step_motor);
    assert_eq!(twin.score, source_record.score);
    assert_eq!(link_prediction(&mut world, 9), None);
    assert_eq!(world.len(), 2);
}

#[test]
fn assignments_and_new_objects_get_predictions() {
    let mut world = World::new();
    let player = world.spawn(CrabBundle::new().record());
    let raft = world.spawn(EntityRecord::raft((
        Raft,
        Position::new(0, 0, Direction::Left),
        ConstantMotor::new(2, Direction::Left),
    )));
    let car = world.spawn(EntityRecord::car((
        Car,
        Position::new(9, 9, Direction::Right),
        ConstantMotor::new(3, Direction::Right),
    )));
    let mut assignment = PlayerAssignmentMessage::new();
    assert_eq!(assignment.entity, None);
    assert_eq!(PlayerAssignmentMessage::default().entity, None);
    receive_entity_assignment_message(&vec![assignment], &mut world);
    assert_eq!(world.len(), 3);
    assignment.entity = Some(player);
    receive_entity_assignment_message(&vec![assignment], &mut world);
    assert_eq!(world.len(), 4);
    assert_eq!(world.get(player).unwrap().source_of, Some(SourceOf(3)));
    receive_insert_component_events(&vec![raft], &vec![car, 50], &mut world);
    assert_eq!(world.len(), 6);
    assert_eq!(world.get(raft).unwrap().source_of, Some(SourceOf(4)));
    assert_eq!(world.get(car).unwrap().source_of, Some(SourceOf(5)));
    let car_twin = world.get(5).unwrap();
    assert_eq!(car_twin.car, Some(Car));
    assert_eq!(car_twin.controlled, Some(Controlled));
    assert_eq!(car_twin.prediction_of, Some(PredictionOf(car)));
    assert_eq!(car_twin.constant_motor, Some(ConstantMotor::new(3, Direction::Right)));
}

#[test]
fn queued_actions_turn_to_the_predictions() {
    let mut world = World::new();
    let source = world.spawn(CrabBundle::new().record());
    let unlinked = world.spawn(CrabBundle::new().record());
    let prediction = link_prediction(&mut world, source).unwrap();
    let mut queue = EntityActionMap::new();
    queue.insert(source, InputAction::Up);
    queue.insert(unlinked, InputAction::Left);
    queue.insert(1000, InputAction::Down);
    let predicted = predicted_actions(&world, &queue);
    assert_eq!(predicted.get(prediction), Some(InputAction::Up));
    assert_eq!(predicted.get(source), None);
    assert_eq!(predicted.get(unlinked), None);
    assert_eq!(predicted.get(1000), None);
}

#[test]
fn a_batch_of_client_ticks_is_sent_logged_and_simulated() {
    let mut world = World::new();
    let source = world.spawn(CrabBundle::new().record());
    let prediction = link_prediction(&mut world, source).unwrap();
    let mut history = TickHistory::new();
    let mut queue = EntityActionMap::new();
    queue.insert(source, InputAction::Right);
    let prepared = send_and_prepare_inputs(&vec![10, 11], &mut history, &world, &mut queue);
    assert_eq!(
        prepared.messages,
        vec![(10, InputMessage { entity: Some(source), action: Some(InputAction::Right) })]
    );
    assert_eq!(prepared.ticks.len(), 2);
    assert_eq!(prepared.ticks[0].0, 10);
    assert_eq!(prepared.ticks[0].1.get(prediction), Some(InputAction::Right));
    assert_eq!(prepared.ticks[1].0, 11);
    assert_eq!(prepared.ticks[1].1.get(prediction), None);
    assert_eq!(queue.get(source), None);
    let logged = history.replays(9);
    assert_eq!(logged.len(), 2);
    assert_eq!(logged[0].0, 10);
    assert_eq!(logged[0].1.get(prediction), Some(InputAction::Right));
    assert_eq!(logged[1].1.get(prediction), None);
}

#[test]
fn without_a_client_tick_the_queue_keeps_its_actions() {
    let world = World::new();
    let mut history = TickHistory::new();
    let mut queue = EntityActionMap::new();
    queue.insert(0, InputAction::Right);
    let prepared = send_and_prepare_inputs(&Vec::new(), &mut history, &world, &mut queue);
    assert!(prepared.messages.is_empty());
    assert!(prepared.ticks.is_empty());
    assert_eq!(queue.get(0), Some(InputAction::Right));
    assert_eq!(history.len(), 0);
}

#[test]
fn a_client_tick_that_is_not_newer_is_dropped() {
    let world = World::new();
    let mut history = TickHistory::new();
    history.insert(20, EntityActionMap::new());
    let mut queue = EntityActionMap::new();
    queue.insert(6, InputAction::Up);
    let prepared = send_and_prepare_inputs(&vec![20, 21, 21], &mut history, &world, &mut queue);
    // the message goes out all the same
    assert_eq!(
        prepared.messages,
        vec![(20, InputMessage { entity: Some(6), action: Some(InputAction::Up) })]
    );
    assert_eq!(prepared.ticks.len(), 1);
    assert_eq!(prepared.ticks[0].0, 21);
    assert_eq!(history.len(), 2);
}

#[test]
fn input_messages_start_unaddressed() {
    let message = InputMessage::new(Some(InputAction::Left));
    assert_eq!(message, InputMessage { entity: None, action: Some(InputAction::Left) });
    assert_eq!(InputMessage::new(None).action, None);
}

#[test]
fn a_client_begins_by_waiting() {
    assert_eq!(AppState::default(), AppState::Waiting);
    assert_ne!(AppState::Connecting, AppState::InGame);
    assert_ne!(AppState::InGame, AppState::Disconnected);
}
