use crabber::history::{
    is_newer, next_tick, TickHistory, DEFAULT_HISTORY_CAPACITY,
};
use crabber::inputs::{EntityActionMap, InputAction};

fn one_action(entity: u64, action: InputAction) -> EntityActionMap {
    let mut map = EntityActionMap::new();
    map.insert(entity, action);
    map
}

fn ticks_of(entries: &[(u16, EntityActionMap)]) -> Vec<u16> {
    entries.iter().map(|(tick, _)| *tick).collect()
}

#[test]
fn replays_hands_out_the_entries_newer_than_the_tick() {
    let mut history = TickHistory::new();
    for tick in [5u16, 6, 7, 8] {
        assert!(history.insert(tick, one_action(tick as u64, InputAction::Up)));
    }
    assert_eq!(history.len(), 4);
    let replays = history.replays(6);
    assert_eq!(ticks_of(&replays), vec![7, 8]);
    assert_eq!(replays[0].1.get(7), Some(InputAction::Up));
    assert_eq!(replays[0].1.get(8), None);
    assert_eq!(replays[1].1.get(8), Some(InputAction::Up));
    // what was not newer is gone from the log
    assert_eq!(history.len(), 2);
    assert_eq!(ticks_of(&history.replays(0)), vec![7, 8]);
}

#[test]
fn the_next_tick_is_newer_across_the_wrap() {
    assert!(is_newer(1, 0));
    assert!(!is_newer(0, 1));
    assert!(!is_newer(1, 1));
    assert!(is_newer(0, u16::MAX));
    assert!(!is_newer(u16::MAX, 0));
    assert!(is_newer(3, u16::MAX - 2));
    assert_eq!(next_tick(u16::MAX), 0);
    assert_eq!(next_tick(41), 42);
    for tick in [0u16, 1, 32767, 32768, 65534, 65535] {
        assert!(is_newer(next_tick(tick), tick));
        assert!(!is_newer(tick, next_tick(tick)));
        assert_eq!(next_tick(tick), tick.wrapping_add(1));
    }
}

#[test]
fn half_the_range_apart_the_larger_number_is_newer() {
    assert!(is_newer(32768, 0));
    assert!(!is_newer(0, 32768));
    assert!(is_newer(32767, 0));
    assert!(!is_newer(32769, 0));
    assert!(is_newer(0, 32769));
}

#[test]
fn the_log_refuses_a_tick_that_is_not_newer() {
    let mut history = TickHistory::new();
    assert!(history.can_insert(9));
    assert!(history.insert(9, EntityActionMap::new()));
    assert!(!history.can_insert(9));
    assert!(!history.insert(9, one_action(1, InputAction::Left)));
    assert!(!history.insert(8, one_action(1, InputAction::Left)));
    assert!(history.can_insert(10));
    assert_eq!(history.len(), 1);
    let replays = history.replays(8);
    assert_eq!(ticks_of(&replays), vec![9]);
    assert_eq!(replays[0].1.get(1), None);
}

#[test]
fn the_log_runs_across_the_wrap() {
    let mut history = TickHistory::new();
    for tick in [65534u16, 65535, 0, 1, 2] {
        assert!(history.insert(tick, EntityActionMap::new()));
    }
    assert_eq!(ticks_of(&history.replays(65535)), vec![0, 1, 2]);
    assert_eq!(ticks_of(&history.replays(1)), vec![2]);
    assert_eq!(ticks_of(&history.replays(2)), Vec::<u16>::new());
    assert_eq!(history.len(), 0);
    // an empty log takes any tick
    assert!(history.insert(0, EntityActionMap::new()));
}

#[test]
fn a_tick_older_than_the_log_keeps_everything() {
    let mut history = TickHistory::new();
    for tick in [100u16, 101, 102] {
        history.insert(tick, EntityActionMap::new());
    }
    assert_eq!(ticks_of(&history.replays(50)), vec![100, 101, 102]);
    assert_eq!(history.len(), 3);
}

#[test]
fn a_full_log_drops_its_oldest_entry() {
    let mut history = TickHistory::with_capacity(3);
    assert_eq!(history.capacity(), 3);
    for tick in 1u16..=5 {
        assert!(history.insert(tick, one_action(tick as u64, InputAction::Down)));
        assert!(history.len() <= 3);
    }
    assert_eq!(history.len(), 3);
    let replays = history.replays(0);
    assert_eq!(ticks_of(&replays), vec![3, 4, 5]);
    assert_eq!(replays[0].1.get(3), Some(InputAction::Down));
    assert_eq!(replays[2].1.get(5), Some(InputAction::Down));
}

#[test]
fn a_log_of_one_keeps_the_newest() {
    let mut history = TickHistory::with_capacity(1);
    history.insert(7, EntityActionMap::new());
    // the entry that makes room is gone before the new tick is judged
    assert!(!history.insert(7, EntityActionMap::new()));
    assert!(history.insert(8, EntityActionMap::new()));
    assert_eq!(ticks_of(&history.replays(0)), vec![8]);
    let mut history = TickHistory::with_capacity(0);
    assert_eq!(history.capacity(), 1);
    assert!(history.insert(1, EntityActionMap::new()));
    assert!(history.insert(2, EntityActionMap::new()));
    assert_eq!(history.len(), 1);
}

#[test]
fn the_default_log_keeps_a_thousand_ticks_and_more() {
    let mut history = TickHistory::new();
    assert_eq!(history.capacity(), DEFAULT_HISTORY_CAPACITY);
    assert_eq!(DEFAULT_HISTORY_CAPACITY, 1024);
    for tick in 0u16..2000 {
        assert!(history.insert(tick, EntityActionMap::new()));
    }
    assert_eq!(history.len(), 1024);
    let replays = history.replays(1500);
    assert_eq!(replays.len(), 499);
    assert_eq!(replays[0].0, 1501);
    assert_eq!(replays[498].0, 1999);
}

#[test]
fn the_log_keeps_copies_of_the_actions() {
    let mut history = TickHistory::new();
    let mut map = one_action(4, InputAction::Right);
    history.insert(1, map.clone());
    map.insert(4, InputAction::Left);
    map.insert(5, InputAction::Up);
    let first = history.replays(0);
    let second = history.replays(0);
    assert_eq!(first[0].1.get(4), Some(InputAction::Right));
    assert_eq!(first[0].1.get(5), None);
    assert_eq!(second[0].1.get(4), Some(InputAction::Right));
}
