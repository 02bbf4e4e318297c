//! The level: a column of tile rows, and the tile grid laid over the
//! coordinate plane.

use vstd::prelude::*;
use vstd::std_specs::convert::FromSpecImpl;
use rand::Rng;
use crate::components::markers::{Car, Raft};
use crate::components::motors::ConstantMotor;
use crate::components::position::{Direction, Position};
use crate::constants::{
    LEVEL_HEIGHT_I16, LEVEL_HEIGHT_I32, LEVEL_WIDTH_I16, LEVEL_WIDTH_I32, TILE_SIZE_I32,
};

verus! {

/// `a / b` rounded toward zero, for a positive `b`.
pub open spec fn trunc_div(a: int, b: int) -> int {
    if a >= 0 {
        a / b
    } else {
        -((-a) / b)
    }
}

/// The tile index nearest to `v` that a tile index can hold.
pub open spec fn clamp_tile(v: int) -> int {
    if v < i16::MIN {
        i16::MIN as int
    } else if v > i16::MAX {
        i16::MAX as int
    } else {
        v
    }
}

/// Index of the tile that the coordinate `c` falls in, on an axis with
/// `tiles` tiles centred on the origin. Tile 0 is centred on
/// `TILE_SIZE / 2 - tiles / 2 * TILE_SIZE`; the quotient rounds toward zero,
/// so the half tile below tile 0 counts as tile 0 as well.
pub open spec fn spec_tile_index(c: int, tiles: int) -> int {
    clamp_tile(trunc_div(c - TILE_SIZE_I32 / 2 + (tiles / 2) * TILE_SIZE_I32, TILE_SIZE_I32 as int))
}

/// Coordinate of the centre of tile `index`, on an axis with `tiles` tiles
/// centred on the origin.
pub open spec fn spec_tile_centre(index: int, tiles: int) -> int {
    (index - tiles / 2) * TILE_SIZE_I32 + TILE_SIZE_I32 / 2
}

fn tile_index(c: i32, tiles: i32) -> (index: i16)
    requires
        tiles == 10,
    ensures
        index == spec_tile_index(c as int, tiles as int),
{
    let shifted: i64 = c as i64 - (TILE_SIZE_I32 / 2) as i64 + ((tiles / 2) * TILE_SIZE_I32) as i64;
    let quotient: i64 = if shifted >= 0 {
        shifted / (TILE_SIZE_I32 as i64)
    } else {
        -((-shifted) / (TILE_SIZE_I32 as i64))
    };
    if quotient < i16::MIN as i64 {
        i16::MIN
    } else if quotient > i16::MAX as i64 {
        i16::MAX
    } else {
        quotient as i16
    }
}

fn tile_centre(index: i16, tiles: i32) -> (c: i32)
    requires
        tiles == 10,
    ensures
        c == spec_tile_centre(index as int, tiles as int),
{
    (index as i32 - tiles / 2) * TILE_SIZE_I32 + TILE_SIZE_I32 / 2
}

/// Index of a tile column, counted from the left edge of the level.
#[derive(Clone, Copy, Debug, PartialEq, Eq, Structural)]
pub struct TileColumn(pub i16);

/// Index of a tile row, counted from the bottom edge of the level.
#[derive(Clone, Copy, Debug, PartialEq, Eq, Structural)]
pub struct TileRow(pub i16);

impl From<i32> for TileColumn {
    /// The column that the coordinate `x` falls in.
    fn from(x: i32) -> (column: TileColumn) {
        TileColumn(tile_index(x, LEVEL_WIDTH_I32))
    }
}

impl FromSpecImpl<i32> for TileColumn {
    open spec fn obeys_from_spec() -> bool {
        true
    }

    open spec fn from_spec(x: i32) -> TileColumn {
        TileColumn(spec_tile_index(x as int, LEVEL_WIDTH_I32 as int) as i16)
    }
}

impl From<TileColumn> for i32 {
    /// The x coordinate of the centre of `column`.
    fn from(column: TileColumn) -> (x: i32) {
        tile_centre(column.0, LEVEL_WIDTH_I32)
    }
}

impl FromSpecImpl<TileColumn> for i32 {
    open spec fn obeys_from_spec() -> bool {
        true
    }

    open spec fn from_spec(column: TileColumn) -> i32 {
        spec_tile_centre(column.0 as int, LEVEL_WIDTH_I32 as int) as i32
    }
}

impl From<i32> for TileRow {
    /// The row that the coordinate `y` falls in.
    fn from(y: i32) -> (row: TileRow) {
        TileRow(tile_index(y, LEVEL_HEIGHT_I32))
    }
}

impl FromSpecImpl<i32> for TileRow {
    open spec fn obeys_from_spec() -> bool {
        true
    }

    open spec fn from_spec(y: i32) -> TileRow {
        TileRow(spec_tile_index(y as int, LEVEL_HEIGHT_I32 as int) as i16)
    }
}

impl From<TileRow> for i32 {
    /// The y coordinate of the centre of `row`.
    fn from(row: TileRow) -> (y: i32) {
        tile_centre(row.0, LEVEL_HEIGHT_I32)
    }
}

impl FromSpecImpl<TileRow> for i32 {
    open spec fn obeys_from_spec() -> bool {
        true
    }

    open spec fn from_spec(row: TileRow) -> i32 {
        spec_tile_centre(row.0 as int, LEVEL_HEIGHT_I32 as int) as i32
    }
}

/// The centre of a tile lies in that tile, for every index the grid can
/// reach without leaving the coordinate range.
pub proof fn lemma_tile_centre_round_trip(index: i16, tiles: int)
    requires
        tiles == 10,
    ensures
        spec_tile_index(spec_tile_centre(index as int, tiles), tiles) == index,
{
    let c = spec_tile_centre(index as int, tiles);
    let shifted = c - 32 + 5 * 64;
    assert(shifted == index * 64);
    if index >= 0 {
        assert((index * 64) / 64 == index) by (nonlinear_arith);
    } else {
        assert(((-index) * 64) / 64 == -index) by (nonlinear_arith);
    }
}

#[derive(Clone, Copy, Debug, PartialEq, Eq, Structural)]
pub enum LevelRow {
    Grass,
    River,
    Road,
    Finish,
}

/// `Rng::gen_range` on the thread's generator, over `low..=high`: some
/// number of that range. The outside function panics on an empty range.
#[verifier::external_body]
fn random_in_inclusive(low: i32, high: i32) -> (r: i32)
    requires
        low <= high,
    ensures
        low <= r <= high,
{
    rand::thread_rng().gen_range(low..=high)
}

/// `Rng::gen_range` on the thread's generator, over `low..high`: some
/// number of that range. The outside function panics on an empty range.
#[verifier::external_body]
fn random_in(low: i16, high: i16) -> (r: i16)
    requires
        low < high,
    ensures
        low <= r < high,
{
    rand::thread_rng().gen_range(low..high)
}

impl LevelRow {
    /// The kind of row that follows a row of this kind when the die shows
    /// `roll`. Rows tend to repeat: grass follows grass on 0 to 3, river
    /// follows river on 0 to 4, road follows road on 0 to 5. Nothing but
    /// the finish follows the finish.
    pub open spec fn spec_next_for_roll(self, roll: int) -> LevelRow {
        match self {
            LevelRow::Grass => if 0 <= roll <= 3 {
                LevelRow::Grass
            } else if 4 <= roll <= 6 {
                LevelRow::Road
            } else {
                LevelRow::River
            },
            LevelRow::River => if 0 <= roll <= 4 {
                LevelRow::River
            } else if 5 <= roll <= 7 {
                LevelRow::Grass
            } else {
                LevelRow::Road
            },
            LevelRow::Road => if 0 <= roll <= 5 {
                LevelRow::Road
            } else if 6 <= roll <= 8 {
                LevelRow::Grass
            } else {
                LevelRow::River
            },
            LevelRow::Finish => LevelRow::Finish,
        }
    }

    /// Whether a row of kind `next` can follow a row of this kind: any of
    /// grass, river and road can follow any of them, and only the finish
    /// follows the finish.
    pub open spec fn spec_can_be_followed_by(self, next: LevelRow) -> bool {
        (self == LevelRow::Finish) == (next == LevelRow::Finish)
    }

    /// The kind of row that follows a row of this kind when the die shows
    /// `roll`.
    pub fn next_for_roll(&self, roll: i32) -> (next: LevelRow)
        ensures
            next == self.spec_next_for_roll(roll as int),
            self.spec_can_be_followed_by(next),
    {
        match self {
            LevelRow::Grass => match roll {
                0..=3 => LevelRow::Grass,
                4..=6 => LevelRow::Road,
                _ => LevelRow::River,
            },
            LevelRow::River => match roll {
                0..=4 => LevelRow::River,
                5..=7 => LevelRow::Grass,
                _ => LevelRow::Road,
            },
            LevelRow::Road => match roll {
                0..=5 => LevelRow::Road,
                6..=8 => LevelRow::Grass,
                _ => LevelRow::River,
            },
            LevelRow::Finish => LevelRow::Finish,
        }
    }

    /// The kind of the next row, by the roll of a ten-sided die.
    pub fn get_random_next(&self) -> (next: LevelRow)
        ensures
            self.spec_can_be_followed_by(next),
            exists|roll: int| 0 <= roll <= 9 && next == #[trigger] self.spec_next_for_roll(roll),
    {
        let r = random_in_inclusive(0, 9);
        self.next_for_roll(r)
    }
}

/// The direction that stands for `roll`: left for 0, right for anything
/// else.
pub fn left_or_right(roll: i32) -> (direction: Direction)
    ensures
        direction == if roll == 0 {
            Direction::Left
        } else {
            Direction::Right
        },
{
    match roll {
        0 => Direction::Left,
        _ => Direction::Right,
    }
}

/// Left or right, by the toss of a coin.
pub fn select_random_left_or_right() -> (direction: Direction)
    ensures
        direction.is_horizontal(),
{
    left_or_right(random_in_inclusive(0, 1))
}

/// The slowest and the fastest drift that the level gives its cars and
/// rafts, in pixel-units per tick.
pub const MIN_DRIFT_SPEED: i32 = 1;

pub const MAX_DRIFT_SPEED: i32 = 5;

/// The clump of `count` neighbours in row height `y` whose first stands in
/// column `column`, all with the motor `motor` and facing its way.
pub open spec fn spec_clump(column: int, count: int, y: i32, motor: ConstantMotor) -> Seq<
    (Position, ConstantMotor),
> {
    Seq::new(
        count as nat,
        |k: int|
            (
                Position {
                    x: spec_tile_centre(column + k, LEVEL_WIDTH_I32 as int) as i32,
                    y,
                    direction: motor.direction,
                },
                motor,
            ),
    )
}

/// The clump of `count` neighbours in row height `y` whose first stands in
/// column `column`.
pub fn clump(column: i16, count: i16, y: i32, motor: ConstantMotor) -> (entries: Vec<
    (Position, ConstantMotor),
>)
    requires
        0 <= count,
        column + count <= i16::MAX,
    ensures
        entries@ == spec_clump(column as int, count as int, y, motor),
{
    let mut entries: Vec<(Position, ConstantMotor)> = Vec::new();
    let mut index: i16 = 0;
    while index < count
        invariant
            0 <= index <= count,
            column + count <= i16::MAX,
            entries@ == spec_clump(column as int, index as int, y, motor),
        decreases count - index,
    {
        let x = i32::from(TileColumn(column + index));
        entries.push((Position::new(x, y, motor.direction), ConstantMotor::new(motor.speed, motor.direction)));
        index += 1;
        proof {
            assert(entries@ =~= spec_clump(column as int, index as int, y, motor));
        }
    }
    entries
}

/// Whether `entries` can be the cars or rafts of row `row`: at least one,
/// all with one motor that runs left or right at a speed from
/// `MIN_DRIFT_SPEED` to `MAX_DRIFT_SPEED`, all facing its way, each at the
/// height of the row and on the centre of a column from 0 to `LEVEL_WIDTH`,
/// in columns that rise along the list.
pub open spec fn spec_is_motor_row(entries: Seq<(Position, ConstantMotor)>, row: int) -> bool {
    &&& entries.len() > 0
    &&& entries[0].1.direction.is_horizontal()
    &&& MIN_DRIFT_SPEED <= entries[0].1.speed <= MAX_DRIFT_SPEED
    &&& forall|i: int|
        0 <= i < entries.len() ==> {
            &&& (#[trigger] entries[i]).1 == entries[0].1
            &&& entries[i].0.direction == entries[0].1.direction
            &&& entries[i].0.y == spec_tile_centre(row, LEVEL_HEIGHT_I32 as int)
            &&& spec_is_column_centre(entries[i].0.x as int)
        }
    &&& forall|i: int, j: int|
        0 <= i < j < entries.len() ==> (#[trigger] entries[i]).0.x < (#[trigger] entries[j]).0.x
}

/// Whether `x` is the centre of one of the columns 0 to `LEVEL_WIDTH`.
pub open spec fn spec_is_column_centre(x: int) -> bool {
    exists|column: int|
        0 <= column <= LEVEL_WIDTH_I32 && x == #[trigger] spec_tile_centre(
            column,
            LEVEL_WIDTH_I32 as int,
        )
}

/// The cars or rafts of row `row_index`, drawn at random: one speed and
/// one direction for the row, and clumps of one or two neighbours with a
/// gap of at least one column between clumps.
pub fn build_random_motors(row_index: i16) -> (entries: Vec<(Position, ConstantMotor)>)
    ensures
        spec_is_motor_row(entries@, row_index as int),
{
    let speed = random_in_inclusive(MIN_DRIFT_SPEED, MAX_DRIFT_SPEED);
    let direction = select_random_left_or_right();
    let motor = ConstantMotor::new(speed, direction);
    let y = i32::from(TileRow(row_index));

    let mut vec: Vec<(Position, ConstantMotor)> = Vec::new();
    let mut current_x: i16 = 0;
    while current_x < LEVEL_WIDTH_I16
        invariant
            0 <= current_x <= LEVEL_WIDTH_I16 + 4,
            motor.direction.is_horizontal(),
            MIN_DRIFT_SPEED <= motor.speed <= MAX_DRIFT_SPEED,
            y == spec_tile_centre(row_index as int, LEVEL_HEIGHT_I32 as int),
            current_x == 0 <==> vec@.len() == 0,
            forall|i: int|
                0 <= i < vec@.len() ==> {
                    &&& (#[trigger] vec@[i]).1 == motor
                    &&& vec@[i].0.direction == motor.direction
                    &&& vec@[i].0.y == y
                    &&& spec_is_column_centre(vec@[i].0.x as int)
                    &&& vec@[i].0.x < spec_tile_centre(current_x as int, LEVEL_WIDTH_I32 as int)
                },
            forall|i: int, j: int|
                0 <= i < j < vec@.len() ==> (#[trigger] vec@[i]).0.x < (#[trigger] vec@[j]).0.x,
        decreases LEVEL_WIDTH_I16 + 4 - current_x,
    {
        let position = random_in(current_x, LEVEL_WIDTH_I16);

        // a clump of random size
        let num_rafts = random_in(1i16, 3);

        // at least one free column between this clump and the next
        let gap = random_in(1i16, 3);
        current_x = position + num_rafts + gap;

        let mut entries = clump(position, num_rafts, y, motor);
        let ghost before = vec@;
        let ghost added = entries@;
        vec.append(&mut entries);
        proof {
            assert(vec@ == before + added);
            assert forall|i: int| 0 <= i < vec@.len() implies {
                &&& (#[trigger] vec@[i]).1 == motor
                &&& vec@[i].0.direction == motor.direction
                &&& vec@[i].0.y == y
                &&& spec_is_column_centre(vec@[i].0.x as int)
                &&& vec@[i].0.x < spec_tile_centre(current_x as int, LEVEL_WIDTH_I32 as int)
            } by {
                if i >= before.len() {
                    let k = i - before.len();
                    assert(vec@[i] == added[k]);
                    assert(vec@[i].0.x == spec_tile_centre(
                        position + k,
                        LEVEL_WIDTH_I32 as int,
                    ));
                } else {
                    assert(vec@[i] == before[i]);
                }
            }
            assert forall|i: int, j: int| 0 <= i < j < vec@.len() implies (#[trigger] vec@[i]).0.x
                < (#[trigger] vec@[j]).0.x by {
                if j >= before.len() {
                    let k = j - before.len();
                    assert(vec@[j] == added[k]);
                    if i >= before.len() {
                        assert(vec@[i] == added[i - before.len()]);
                    } else {
                        assert(vec@[i] == before[i]);
                    }
                } else {
                    assert(vec@[i] == before[i]);
                    assert(vec@[j] == before[j]);
                }
            }
        }
    }
    vec
}

/// The rows of a level, bottom row first.
#[derive(Clone, Debug)]
pub struct Level {
    pub rows: Vec<LevelRow>,
}

impl View for Level {
    type V = Seq<LevelRow>;

    open spec fn view(&self) -> Seq<LevelRow> {
        self.rows@
    }
}

/// Whether `rows` has a row `row` and it is of kind `target`.
pub open spec fn spec_is_row_of_kind(rows: Seq<LevelRow>, row: int, target: LevelRow) -> bool {
    0 <= row < rows.len() && rows[row] == target
}

impl Level {
    pub fn new(rows: Vec<LevelRow>) -> (level: Level)
        ensures
            level@ == rows@,
    {
        Level { rows }
    }

    /// Whether the level has a row `row` and it is of kind `target`. A row
    /// below the first or above the last is of no kind.
    pub fn is_row_of_kind(&self, row: TileRow, target: LevelRow) -> (r: bool)
        ensures
            r == spec_is_row_of_kind(self@, row.0 as int, target),
    {
        if row.0 < 0 {
            return false;
        }
        let index = row.0 as usize;
        index < self.rows.len() && self.rows[index] == target
    }
}

/// Whether `rows` can come out of the generator: `LEVEL_HEIGHT` rows, grass
/// at the bottom, the finish at the top and nowhere else.
pub open spec fn spec_is_generated(rows: Seq<LevelRow>) -> bool {
    &&& rows.len() == LEVEL_HEIGHT_I32
    &&& rows[0] == LevelRow::Grass
    &&& rows[LEVEL_HEIGHT_I32 - 1] == LevelRow::Finish
    &&& forall|i: int| 0 <= i < LEVEL_HEIGHT_I32 - 1 ==> #[trigger] rows[i] != LevelRow::Finish
}

/// Whether every entry of `bundles` stands at the height of a row of
/// `rows` that is of kind `kind`.
pub open spec fn spec_stand_in_rows(
    bundles: Seq<(Position, ConstantMotor)>,
    rows: Seq<LevelRow>,
    kind: LevelRow,
) -> bool {
    forall|i: int|
        0 <= i < bundles.len() ==> spec_is_row_of_kind(
            rows,
            spec_tile_index((#[trigger] bundles[i]).0.y as int, LEVEL_HEIGHT_I32 as int),
            kind,
        )
}

/// Whether every entry of `bundles` drifts left or right at a speed from
/// `MIN_DRIFT_SPEED` to `MAX_DRIFT_SPEED`, faces the way it drifts, and
/// stands on the centre of a column from 0 to `LEVEL_WIDTH`.
pub open spec fn spec_drift_in_columns(bundles: Seq<(Position, ConstantMotor)>) -> bool {
    forall|i: int|
        0 <= i < bundles.len() ==> {
            &&& (#[trigger] bundles[i]).1.direction.is_horizontal()
            &&& MIN_DRIFT_SPEED <= bundles[i].1.speed <= MAX_DRIFT_SPEED
            &&& bundles[i].0.direction == bundles[i].1.direction
            &&& spec_is_column_centre(bundles[i].0.x as int)
        }
}

/// Whether each row of `rows` that is of kind `kind`, as far as a tile
/// index reaches, has an entry of `bundles` at its height.
pub open spec fn spec_rows_are_filled(
    bundles: Seq<(Position, ConstantMotor)>,
    rows: Seq<LevelRow>,
    upto: int,
    kind: LevelRow,
) -> bool {
    forall|row: int|
        0 <= row < upto && row <= i16::MAX && #[trigger] rows[row] == kind ==> exists|i: int|
            0 <= i < bundles.len() && (#[trigger] bundles[i]).0.y == spec_tile_centre(
                row,
                LEVEL_HEIGHT_I32 as int,
            )
}

/// The cars of `bundles`, without the markers.
pub open spec fn spec_cars_of(bundles: Seq<(Car, Position, ConstantMotor)>) -> Seq<
    (Position, ConstantMotor),
> {
    Seq::new(bundles.len(), |i: int| (bundles[i].1, bundles[i].2))
}

/// The rafts of `bundles`, without the markers.
pub open spec fn spec_rafts_of(bundles: Seq<(Raft, Position, ConstantMotor)>) -> Seq<
    (Position, ConstantMotor),
> {
    Seq::new(bundles.len(), |i: int| (bundles[i].1, bundles[i].2))
}

impl Level {
    /// A level drawn at random: grass at the bottom, the finish at the top,
    /// and between them rows of grass, road and river, each drawn by
    /// [`LevelRow::get_random_next`] from the one below.
    pub fn new_random() -> (level: Level)
        ensures
            spec_is_generated(level@),
    {
        let mut rows: Vec<LevelRow> = Vec::new();
        // the level starts with grass
        let mut level_row_kind = LevelRow::Grass;
        rows.push(level_row_kind);
        let mut row: i16 = 1;
        while row < LEVEL_HEIGHT_I16 - 1
            invariant
                1 <= row <= LEVEL_HEIGHT_I16 - 1,
                rows@.len() == row,
                rows@[0] == LevelRow::Grass,
                level_row_kind != LevelRow::Finish,
                forall|i: int| 0 <= i < row ==> #[trigger] rows@[i] != LevelRow::Finish,
            decreases LEVEL_HEIGHT_I16 - row,
        {
            level_row_kind = level_row_kind.get_random_next();
            rows.push(level_row_kind);
            row += 1;
        }
        // and ends with the finish line
        rows.push(LevelRow::Finish);
        Level { rows }
    }

    /// The cars and the rafts of the level, drawn at random: each road row
    /// gets cars and each river row gets rafts, as [`build_random_motors`]
    /// deals them out.
    pub fn create_level_bundles(&self) -> (bundles: (
        Vec<(Car, Position, ConstantMotor)>,
        Vec<(Raft, Position, ConstantMotor)>,
    ))
        ensures
            spec_stand_in_rows(spec_cars_of(bundles.0@), self@, LevelRow::Road),
            spec_stand_in_rows(spec_rafts_of(bundles.1@), self@, LevelRow::River),
            spec_drift_in_columns(spec_cars_of(bundles.0@)),
            spec_drift_in_columns(spec_rafts_of(bundles.1@)),
            spec_rows_are_filled(
                spec_cars_of(bundles.0@),
                self@,
                self@.len() as int,
                LevelRow::Road,
            ),
            spec_rows_are_filled(
                spec_rafts_of(bundles.1@),
                self@,
                self@.len() as int,
                LevelRow::River,
            ),
    {
        let mut car_bundles: Vec<(Car, Position, ConstantMotor)> = Vec::new();
        let mut raft_bundles: Vec<(Raft, Position, ConstantMotor)> = Vec::new();
        let n = self.rows.len();
        let mut row_index: usize = 0;
        while row_index < n && row_index <= i16::MAX as usize
            invariant
                row_index <= n,
                n == self@.len(),
                row_index <= i16::MAX + 1,
                spec_stand_in_rows(spec_cars_of(car_bundles@), self@, LevelRow::Road),
                spec_stand_in_rows(spec_rafts_of(raft_bundles@), self@, LevelRow::River),
                spec_drift_in_columns(spec_cars_of(car_bundles@)),
                spec_drift_in_columns(spec_rafts_of(raft_bundles@)),
                spec_rows_are_filled(
                    spec_cars_of(car_bundles@),
                    self@,
                    row_index as int,
                    LevelRow::Road,
                ),
                spec_rows_are_filled(
                    spec_rafts_of(raft_bundles@),
                    self@,
                    row_index as int,
                    LevelRow::River,
                ),
            decreases n - row_index,
        {
            let row_kind = self.rows[row_index];
            if LevelRow::Road == row_kind {
                let motors = build_random_motors(row_index as i16);
                proof {
                    lemma_motor_row_joins(
                        spec_cars_of(car_bundles@),
                        motors@,
                        self@,
                        row_index as int,
                        LevelRow::Road,
                    );
                }
                add_cars(&mut car_bundles, &motors);
            }
            if LevelRow::River == row_kind {
                let motors = build_random_motors(row_index as i16);
                proof {
                    lemma_motor_row_joins(
                        spec_rafts_of(raft_bundles@),
                        motors@,
                        self@,
                        row_index as int,
                        LevelRow::River,
                    );
                }
                add_rafts(&mut raft_bundles, &motors);
            }
            proof {
                if LevelRow::Road != row_kind {
                    lemma_row_is_skipped(
                        spec_cars_of(car_bundles@),
                        self@,
                        row_index as int,
                        LevelRow::Road,
                    );
                }
                if LevelRow::River != row_kind {
                    lemma_row_is_skipped(
                        spec_rafts_of(raft_bundles@),
                        self@,
                        row_index as int,
                        LevelRow::River,
                    );
                }
            }
            row_index += 1;
        }
        (car_bundles, raft_bundles)
    }
}

/// Marks each of `motors` as a car and adds it to `car_bundles`.
fn add_cars(
    car_bundles: &mut Vec<(Car, Position, ConstantMotor)>,
    motors: &Vec<(Position, ConstantMotor)>,
)
    ensures
        spec_cars_of(final(car_bundles)@) == spec_cars_of(old(car_bundles)@) + motors@,
{
    let mut i: usize = 0;
    while i < motors.len()
        invariant
            i <= motors@.len(),
            spec_cars_of(car_bundles@) == spec_cars_of(old(car_bundles)@) + motors@.take(i as int),
        decreases motors@.len() - i,
    {
        let (position, motor) = motors[i];
        let ghost sofar = spec_cars_of(car_bundles@);
        car_bundles.push((Car, position, motor));
        i += 1;
        proof {
            assert(spec_cars_of(car_bundles@) =~= sofar.push(motors@[i - 1]));
            assert(motors@.take(i as int) =~= motors@.take(i - 1).push(motors@[i - 1]));
            assert(spec_cars_of(car_bundles@) =~= spec_cars_of(old(car_bundles)@) + motors@.take(
                i as int,
            ));
        }
    }
    proof {
        assert(motors@.take(motors@.len() as int) =~= motors@);
    }
}

/// Marks each of `motors` as a raft and adds it to `raft_bundles`.
fn add_rafts(
    raft_bundles: &mut Vec<(Raft, Position, ConstantMotor)>,
    motors: &Vec<(Position, ConstantMotor)>,
)
    ensures
        spec_rafts_of(final(raft_bundles)@) == spec_rafts_of(old(raft_bundles)@) + motors@,
{
    let mut i: usize = 0;
    while i < motors.len()
        invariant
            i <= motors@.len(),
            spec_rafts_of(raft_bundles@) == spec_rafts_of(old(raft_bundles)@) + motors@.take(
                i as int,
            ),
        decreases motors@.len() - i,
    {
        let (position, motor) = motors[i];
        let ghost sofar = spec_rafts_of(raft_bundles@);
        raft_bundles.push((Raft, position, motor));
        i += 1;
        proof {
            assert(spec_rafts_of(raft_bundles@) =~= sofar.push(motors@[i - 1]));
            assert(motors@.take(i as int) =~= motors@.take(i - 1).push(motors@[i - 1]));
            assert(spec_rafts_of(raft_bundles@) =~= spec_rafts_of(old(raft_bundles)@)
                + motors@.take(i as int));
        }
    }
    proof {
        assert(motors@.take(motors@.len() as int) =~= motors@);
    }
}

/// What holds of the bundles of the rows below `row` still holds once the
/// motors of row `row` have joined them, and row `row` is filled.
proof fn lemma_motor_row_joins(
    before: Seq<(Position, ConstantMotor)>,
    motors: Seq<(Position, ConstantMotor)>,
    rows: Seq<LevelRow>,
    row: int,
    kind: LevelRow,
)
    requires
        0 <= row < rows.len(),
        row <= i16::MAX,
        rows[row] == kind,
        spec_is_motor_row(motors, row),
        spec_stand_in_rows(before, rows, kind),
        spec_drift_in_columns(before),
    ensures
        spec_stand_in_rows(before + motors, rows, kind),
        spec_drift_in_columns(before + motors),
        spec_rows_are_filled(before, rows, row, kind) ==> spec_rows_are_filled(
            before + motors,
            rows,
            row + 1,
            kind,
        ),
{
    let joined = before + motors;
    lemma_tile_centre_round_trip(row as i16, LEVEL_HEIGHT_I32 as int);
    assert forall|i: int| 0 <= i < joined.len() implies spec_is_row_of_kind(
        rows,
        spec_tile_index((#[trigger] joined[i]).0.y as int, LEVEL_HEIGHT_I32 as int),
        kind,
    ) by {
        if i < before.len() {
            assert(joined[i] == before[i]);
        } else {
            assert(joined[i] == motors[i - before.len()]);
        }
    }
    assert forall|i: int| 0 <= i < joined.len() implies {
        &&& (#[trigger] joined[i]).1.direction.is_horizontal()
        &&& MIN_DRIFT_SPEED <= joined[i].1.speed <= MAX_DRIFT_SPEED
        &&& joined[i].0.direction == joined[i].1.direction
        &&& spec_is_column_centre(joined[i].0.x as int)
    } by {
        if i < before.len() {
            assert(joined[i] == before[i]);
        } else {
            assert(joined[i] == motors[i - before.len()]);
        }
    }
    assert(joined[before.len() as int] == motors[0]);
    if spec_rows_are_filled(before, rows, row, kind) {
        assert forall|r: int| 0 <= r < row + 1 && r <= i16::MAX && #[trigger] rows[r]
            == kind implies exists|i: int|
            0 <= i < joined.len() && (#[trigger] joined[i]).0.y == spec_tile_centre(
                r,
                LEVEL_HEIGHT_I32 as int,
            ) by {
            if r < row {
                let i = choose|i: int|
                    0 <= i < before.len() && (#[trigger] before[i]).0.y == spec_tile_centre(
                        r,
                        LEVEL_HEIGHT_I32 as int,
                    );
                assert(joined[i] == before[i]);
            } else {
                assert(joined[before.len() as int].0.y == spec_tile_centre(
                    row,
                    LEVEL_HEIGHT_I32 as int,
                ));
            }
        }
    }
}

/// A row that is neither road nor river leaves the bundles as they are.
proof fn lemma_row_is_skipped(
    bundles: Seq<(Position, ConstantMotor)>,
    rows: Seq<LevelRow>,
    row: int,
    kind: LevelRow,
)
    requires
        0 <= row < rows.len(),
        rows[row] != kind,
        spec_rows_are_filled(bundles, rows, row, kind),
    ensures
        spec_rows_are_filled(bundles, rows, row + 1, kind),
{
}

} // verus!
