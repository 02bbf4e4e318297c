//! The typed components that an entity can carry.

mod controlled;
pub use controlled::Controlled;

mod level;
pub use level::{
    build_random_motors, clamp_tile, clump, left_or_right, lemma_tile_centre_round_trip,
    select_random_left_or_right, spec_cars_of, spec_clump, spec_drift_in_columns,
    spec_is_column_centre, spec_is_generated, spec_is_motor_row, spec_is_row_of_kind,
    spec_rafts_of, spec_rows_are_filled, spec_stand_in_rows, spec_tile_centre, spec_tile_index,
    trunc_div, Level, LevelRow, TileColumn, TileRow, MAX_DRIFT_SPEED, MIN_DRIFT_SPEED,
};

mod markers;
pub use markers::{Car, Crab, Knockout, Raft};

mod position;
pub use position::{clamp_coord, offset_coord, Direction, Position};

mod motors;
pub use motors::{
    get_offset_for_loop, is_offscreen, lemma_idle_stays_idle, lemma_leap_takes_motion_steps,
    lemma_loop_progress, lemma_loop_round_trip, lemma_loop_step, spec_across, spec_along,
    spec_driven_times, spec_in_loop_window, spec_is_offscreen, spec_looped_times, ConstantMotor,
    StepMotor, MOTION_STEPS, STEP_SPEED,
};

mod score;
pub use score::Score;
