use crabber::bundles::{controlled, CrabBundle};
use crabber::components::{Car, Controlled, Crab, LevelRow, Raft, TileRow};
use crabber::inputs::InputAction;
use crabber::messages::InputMessage;
use crabber::server::{
    connect_events, connect_player, count_players, disconnect_events, player_actions,
    spawn_random_level, tick_events, UserEntities, MAX_PLAYERS,
};
use crabber::world::{EntityRecord, World};

fn message(entity: Option<u64>, action: Option<InputAction>) -> InputMessage {
    InputMessage { entity, action }
}

#[test]
fn users_and_entities_are_looked_up_either_way() {
    let mut users = UserEntities::new();
    assert_eq!(users.get_entity(1), None);
    users.insert(1, 10);
    users.insert(2, 20);
    assert_eq!(users.get_entity(1), Some(10));
    assert_eq!(users.get_user(10), Some(1));
    assert_eq!(users.get_entity(2), Some(20));
    assert_eq!(users.get_user(20), Some(2));
    assert_eq!(users.get_user(1), None);
    assert_eq!(users.remove(1), Some(10));
    assert_eq!(users.remove(1), None);
    assert_eq!(users.get_entity(1), None);
    assert_eq!(users.get_user(10), None);
    assert_eq!(users.get_entity(2), Some(20));
    assert_eq!(users.remove(3), None);
}

#[test]
fn the_messages_of_a_tick_add_up_to_one_action_per_entity() {
    let actions = player_actions(&vec![
        message(Some(1), Some(InputAction::Up)),
        message(Some(2), Some(InputAction::Left)),
        message(Some(1), Some(InputAction::Down)),
        message(None, Some(InputAction::Right)),
        message(Some(3), None),
    ]);
    assert_eq!(actions.get(1), Some(InputAction::Down));
    assert_eq!(actions.get(2), Some(InputAction::Left));
    assert_eq!(actions.get(3), None);
}

#[test]
fn each_server_tick_gets_its_own_actions() {
    let ticks = tick_events(&vec![
        (4, vec![message(Some(1), Some(InputAction::Up))]),
        (5, vec![]),
        (6, vec![message(Some(1), Some(InputAction::Left)), message(Some(2), Some(InputAction::Up))]),
    ]);
    assert_eq!(ticks.len(), 3);
    assert_eq!(ticks[0].0, 4);
    assert_eq!(ticks[0].1.get(1), Some(InputAction::Up));
    assert_eq!(ticks[1].0, 5);
    assert_eq!(ticks[1].1.get(1), None);
    assert_eq!(ticks[2].0, 6);
    assert_eq!(ticks[2].1.get(1), Some(InputAction::Left));
    assert_eq!(ticks[2].1.get(2), Some(InputAction::Up));
    assert!(tick_events(&Vec::new()).is_empty());
}

#[test]
fn players_are_counted() {
    let mut world = World::new();
    assert_eq!(count_players(&world), 0);
    world.spawn(EntityRecord::empty());
    world.spawn(CrabBundle::new().record());
    world.spawn(controlled(CrabBundle::new().record()));
    assert_eq!(count_players(&world), 2);
    assert_eq!(MAX_PLAYERS, 2);
}

fn check_level_entities(world: &World, from: usize, upto: usize) {
    let level = &world.levels[world.levels.len() - 1];
    assert_eq!(level.rows.len(), 10);
    assert_eq!(level.rows[0], LevelRow::Grass);
    assert_eq!(level.rows[9], LevelRow::Finish);
    let mut seen_raft = false;
    for id in from..upto {
        let record = world.entities[id];
        assert_eq!(record.controlled, Some(Controlled));
        assert_eq!(record.crab, None);
        let position = record.position.unwrap();
        let motor = record.constant_motor.unwrap();
        assert_eq!(position.direction, motor.direction);
        assert!(1 <= motor.speed && motor.speed <= 5);
        let row = TileRow::from(position.y);
        if record.car == Some(Car) {
            assert!(!seen_raft);
            assert_eq!(record.raft, None);
            assert!(level.is_row_of_kind(row, LevelRow::Road));
        } else {
            seen_raft = true;
            assert_eq!(record.raft, Some(Raft));
            assert!(level.is_row_of_kind(row, LevelRow::River));
        }
    }
}

#[test]
fn a_random_level_joins_the_world_with_its_cars_and_rafts() {
    for _ in 0..20 {
        let mut world = World::new();
        let first = world.spawn(EntityRecord::empty());
        spawn_random_level(&mut world);
        assert_eq!(world.levels.len(), 1);
        assert_eq!(world.get(first), Some(EntityRecord::empty()));
        check_level_entities(&world, 1, world.len());
    }
}

#[test]
fn the_first_player_brings_the_level() {
    let mut world = World::new();
    let mut users = UserEntities::new();
    let assignment = connect_player(7, 0, &mut world, &mut users).unwrap();
    let entity = assignment.entity.unwrap();
    assert_eq!(entity as usize, world.len() - 1);
    assert_eq!(world.get(entity), Some(controlled(CrabBundle::new().record())));
    assert_eq!(world.levels.len(), 1);
    check_level_entities(&world, 0, world.len() - 1);
    assert_eq!(users.get_entity(7), Some(entity));
    assert_eq!(users.get_user(entity), Some(7));
}

#[test]
fn the_second_player_joins_the_level_that_is_there() {
    let mut world = World::new();
    let mut users = UserEntities::new();
    world.spawn(controlled(CrabBundle::new().record()));
    let assignment = connect_player(8, 1, &mut world, &mut users).unwrap();
    assert_eq!(assignment.entity, Some(1));
    assert_eq!(world.len(), 2);
    assert_eq!(world.levels.len(), 0);
    assert_eq!(world.get(1).unwrap().crab, Some(Crab));
    assert_eq!(users.get_entity(8), Some(1));
}

#[test]
fn a_third_user_only_watches() {
    let mut world = World::new();
    let mut users = UserEntities::new();
    world.spawn(controlled(CrabBundle::new().record()));
    world.spawn(controlled(CrabBundle::new().record()));
    assert_eq!(connect_player(9, 2, &mut world, &mut users), None);
    assert_eq!(world.len(), 2);
    assert_eq!(users.get_entity(9), None);
    let assignments = connect_events(&vec![9, 10], &mut world, &mut users);
    assert!(assignments.is_empty());
    assert_eq!(world.len(), 2);
    assert_eq!(world.levels.len(), 0);
}

#[test]
fn a_batch_of_connections_counts_the_players_once() {
    let mut world = World::new();
    let mut users = UserEntities::new();
    world.spawn(controlled(CrabBundle::new().record()));
    let assignments = connect_events(&vec![4, 5, 6], &mut world, &mut users);
    assert_eq!(assignments.len(), 3);
    for (index, (user, assignment)) in assignments.iter().enumerate() {
        assert_eq!(*user, 4 + index as u64);
        let entity = assignment.entity.unwrap();
        assert_eq!(entity, 1 + index as u64);
        assert_eq!(world.get(entity), Some(controlled(CrabBundle::new().record())));
        assert_eq!(users.get_entity(*user), Some(entity));
    }
    assert_eq!(world.levels.len(), 0);
    let mut world = World::new();
    let assignments = connect_events(&vec![1, 2], &mut world, &mut users);
    assert_eq!(assignments.len(), 2);
    assert_eq!(world.levels.len(), 2);
    assert_eq!(count_players(&world), 2);
    assert!(connect_events(&Vec::new(), &mut world, &mut users).is_empty());
}

#[test]
fn a_user_that_leaves_takes_its_entity_along() {
    let mut world = World::new();
    let mut users = UserEntities::new();
    world.spawn(controlled(CrabBundle::new().record()));
    let assignments = connect_events(&vec![4], &mut world, &mut users);
    let entity = assignments[0].1.entity.unwrap();
    let departed = disconnect_events(&vec![3, 4, 4], &mut world, &mut users);
    assert_eq!(departed, vec![entity]);
    assert_eq!(world.get(entity), Some(EntityRecord::empty()));
    assert_eq!(world.get(0), Some(controlled(CrabBundle::new().record())));
    assert_eq!(users.get_entity(4), None);
    assert_eq!(users.get_user(entity), None);
    assert_eq!(count_players(&world), 1);
}
