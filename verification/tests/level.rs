use crabber::components::{
    build_random_motors, clump, left_or_right, select_random_left_or_right, ConstantMotor,
    Direction, Level, LevelRow, TileColumn, TileRow,
};
use crabber::constants::{
    LEVEL_HEIGHT_I16, LEVEL_HEIGHT_U32, LEVEL_SPAN_X_I32, LEVEL_WIDTH_I16, LEVEL_WIDTH_U32,
    MAX_X_I16, MAX_X_I32, MAX_Y_I16, MAX_Y_I32, TILE_SIZE_I16, TILE_SIZE_I32,
};

#[test]
fn the_constants_fit_together() {
    assert_eq!(MAX_X_I16, (LEVEL_WIDTH_I16 / 2 - 1) * TILE_SIZE_I16);
    assert_eq!(MAX_Y_I16, (LEVEL_HEIGHT_I16 / 2 - 1) * TILE_SIZE_I16);
    assert_eq!(MAX_X_I32, 256);
    assert_eq!(MAX_Y_I32, 256);
    assert_eq!(LEVEL_SPAN_X_I32, 640);
    assert_eq!(TILE_SIZE_I32, 64);
    assert_eq!(LEVEL_WIDTH_U32, 10);
    assert_eq!(LEVEL_HEIGHT_U32, 10);
}

#[test]
fn tile_rows_have_their_centres() {
    assert_eq!(i32::from(TileRow(0)), -288);
    assert_eq!(i32::from(TileRow(1)), -224);
    assert_eq!(i32::from(TileRow(5)), 32);
    assert_eq!(i32::from(TileRow(9)), 288);
    assert_eq!(i32::from(TileColumn(0)), -288);
    assert_eq!(i32::from(TileColumn(10)), 352);
    assert_eq!(i32::from(TileRow(-3)), -480);
}

#[test]
fn coordinates_fall_into_tile_rows() {
    assert_eq!(TileRow::from(-288), TileRow(0));
    assert_eq!(TileRow::from(-225), TileRow(0));
    assert_eq!(TileRow::from(-224), TileRow(1));
    assert_eq!(TileRow::from(0), TileRow(4));
    assert_eq!(TileRow::from(32), TileRow(5));
    assert_eq!(TileRow::from(288), TileRow(9));
    assert_eq!(TileRow::from(352), TileRow(10));
    // the quotient rounds toward zero: the tile below tile 0 counts as tile 0
    assert_eq!(TileRow::from(-289), TileRow(0));
    assert_eq!(TileRow::from(-351), TileRow(0));
    assert_eq!(TileRow::from(-352), TileRow(-1));
    assert_eq!(TileColumn::from(-352), TileColumn(-1));
    assert_eq!(TileColumn::from(95), TileColumn(5));
    assert_eq!(TileColumn::from(96), TileColumn(6));
}

#[test]
fn tile_indices_stop_at_the_ends_of_their_range() {
    assert_eq!(TileRow::from(i32::MAX), TileRow(i16::MAX));
    assert_eq!(TileRow::from(i32::MIN), TileRow(i16::MIN));
    assert_eq!(TileColumn::from(i32::MAX), TileColumn(i16::MAX));
}

#[test]
fn tile_rows_agree_with_the_float_formulas_on_whole_coordinates() {
    for y in -2000i32..2000 {
        let expected_row = ((y as f32 - 64. / 2.) / 64. + 10. / 2.) as i16;
        assert_eq!(TileRow::from(y), TileRow(expected_row), "y = {}", y);
        assert_eq!(TileColumn::from(y), TileColumn(expected_row), "x = {}", y);
    }
    for index in -20i16..30 {
        let expected = ((index - 10 / 2) * 64 + 64 / 2) as f32;
        assert_eq!(i32::from(TileRow(index)) as f32, expected);
        assert_eq!(i32::from(TileColumn(index)) as f32, expected);
    }
}

#[test]
fn the_centre_of_a_tile_lies_in_that_tile() {
    for index in -100i16..100 {
        assert_eq!(TileRow::from(i32::from(TileRow(index))), TileRow(index));
        assert_eq!(TileColumn::from(i32::from(TileColumn(index))), TileColumn(index));
    }
}

#[test]
fn rows_are_of_their_kind_only() {
    let level = Level::new(vec![LevelRow::Grass, LevelRow::Road, LevelRow::River, LevelRow::Finish]);
    assert!(level.is_row_of_kind(TileRow(0), LevelRow::Grass));
    assert!(!level.is_row_of_kind(TileRow(0), LevelRow::Road));
    assert!(level.is_row_of_kind(TileRow(1), LevelRow::Road));
    assert!(level.is_row_of_kind(TileRow(2), LevelRow::River));
    assert!(level.is_row_of_kind(TileRow(3), LevelRow::Finish));
    assert!(!level.is_row_of_kind(TileRow(4), LevelRow::Finish));
    assert!(!level.is_row_of_kind(TileRow(-1), LevelRow::Grass));
    assert!(!level.is_row_of_kind(TileRow(i16::MIN), LevelRow::Grass));
    assert!(!level.is_row_of_kind(TileRow(i16::MAX), LevelRow::Grass));
}

#[test]
fn the_die_decides_the_next_row() {
    let grass = [
        LevelRow::Grass,
        LevelRow::Grass,
        LevelRow::Grass,
        LevelRow::Grass,
        LevelRow::Road,
        LevelRow::Road,
        LevelRow::Road,
        LevelRow::River,
        LevelRow::River,
        LevelRow::River,
    ];
    let river = [
        LevelRow::River,
        LevelRow::River,
        LevelRow::River,
        LevelRow::River,
        LevelRow::River,
        LevelRow::Grass,
        LevelRow::Grass,
        LevelRow::Grass,
        LevelRow::Road,
        LevelRow::Road,
    ];
    let road = [
        LevelRow::Road,
        LevelRow::Road,
        LevelRow::Road,
        LevelRow::Road,
        LevelRow::Road,
        LevelRow::Road,
        LevelRow::Grass,
        LevelRow::Grass,
        LevelRow::Grass,
        LevelRow::River,
    ];
    for roll in 0..10usize {
        assert_eq!(LevelRow::Grass.next_for_roll(roll as i32), grass[roll]);
        assert_eq!(LevelRow::River.next_for_roll(roll as i32), river[roll]);
        assert_eq!(LevelRow::Road.next_for_roll(roll as i32), road[roll]);
        assert_eq!(LevelRow::Finish.next_for_roll(roll as i32), LevelRow::Finish);
    }
    assert_eq!(LevelRow::Grass.next_for_roll(-1), LevelRow::River);
    assert_eq!(LevelRow::River.next_for_roll(12), LevelRow::Road);
    assert_eq!(LevelRow::Road.next_for_roll(i32::MIN), LevelRow::River);
}

#[test]
fn a_random_next_row_is_never_the_finish() {
    for _ in 0..200 {
        for row in [LevelRow::Grass, LevelRow::River, LevelRow::Road] {
            assert_ne!(row.get_random_next(), LevelRow::Finish);
        }
        assert_eq!(LevelRow::Finish.get_random_next(), LevelRow::Finish);
    }
}

#[test]
fn the_coin_gives_left_or_right() {
    assert_eq!(left_or_right(0), Direction::Left);
    assert_eq!(left_or_right(1), Direction::Right);
    assert_eq!(left_or_right(-7), Direction::Right);
    let mut seen_left = false;
    let mut seen_right = false;
    for _ in 0..200 {
        match select_random_left_or_right() {
            Direction::Left => seen_left = true,
            Direction::Right => seen_right = true,
            other => panic!("{:?} is neither left nor right", other),
        }
    }
    assert!(seen_left && seen_right);
}

#[test]
fn a_random_level_starts_with_grass_and_ends_with_the_finish() {
    for _ in 0..100 {
        let level = Level::new_random();
        assert_eq!(level.rows.len(), 10);
        assert_eq!(level.rows[0], LevelRow::Grass);
        assert_eq!(level.rows[9], LevelRow::Finish);
        for row in 0..9 {
            assert_ne!(level.rows[row], LevelRow::Finish);
        }
    }
}

#[test]
fn a_clump_stands_on_neighbouring_columns() {
    let motor = ConstantMotor::new(3, Direction::Left);
    let entries = clump(4, 2, 96, motor);
    assert_eq!(entries.len(), 2);
    assert_eq!(entries[0].0.x, -32);
    assert_eq!(entries[1].0.x, 32);
    for (position, entry_motor) in entries {
        assert_eq!(position.y, 96);
        assert_eq!(position.direction, Direction::Left);
        assert_eq!(entry_motor, motor);
    }
    assert_eq!(clump(0, 0, 0, motor).len(), 0);
}

#[test]
fn random_motors_share_a_row_a_speed_and_a_direction() {
    for row in 0..10i16 {
        for _ in 0..50 {
            let entries = build_random_motors(row);
            assert!(!entries.is_empty());
            let motor = entries[0].1;
            assert!(1 <= motor.speed && motor.speed <= 5);
            assert!(motor.direction == Direction::Left || motor.direction == Direction::Right);
            let mut previous_x = i32::MIN;
            for (position, entry_motor) in entries {
                assert_eq!(entry_motor, motor);
                assert_eq!(position.direction, motor.direction);
                assert_eq!(position.y, i32::from(TileRow(row)));
                let column = TileColumn::from(position.x);
                assert!(0 <= column.0 && column.0 <= 10);
                assert_eq!(position.x, i32::from(column));
                assert!(previous_x < position.x);
                previous_x = position.x;
            }
        }
    }
}

#[test]
fn cars_stand_on_roads_and_rafts_on_rivers() {
    let level = Level::new(vec![
        LevelRow::Grass,
        LevelRow::Road,
        LevelRow::River,
        LevelRow::Road,
        LevelRow::Grass,
        LevelRow::Finish,
    ]);
    for _ in 0..50 {
        let (cars, rafts) = level.create_level_bundles();
        assert!(!cars.is_empty());
        assert!(!rafts.is_empty());
        let mut car_rows = [false; 6];
        for (_, position, motor) in cars {
            let row = TileRow::from(position.y);
            assert!(level.is_row_of_kind(row, LevelRow::Road));
            assert_eq!(position.y, i32::from(row));
            assert_eq!(position.direction, motor.direction);
            car_rows[row.0 as usize] = true;
        }
        assert_eq!(car_rows, [false, true, false, true, false, false]);
        for (_, position, motor) in rafts {
            assert_eq!(TileRow::from(position.y), TileRow(2));
            assert_eq!(position.direction, motor.direction);
        }
    }
    let bare = Level::new(vec![LevelRow::Grass, LevelRow::Finish]);
    let (cars, rafts) = bare.create_level_bundles();
    assert!(cars.is_empty() && rafts.is_empty());
}
