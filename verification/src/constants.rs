//! Level geometry, in tiles and in pixel-units.

use vstd::prelude::*;

verus! {

pub const LEVEL_WIDTH_I16: i16 = 10;

pub const LEVEL_WIDTH_U32: u32 = 10;

pub const LEVEL_WIDTH_I32: i32 = 10;

pub const LEVEL_HEIGHT_I16: i16 = 10;

pub const LEVEL_HEIGHT_U32: u32 = 10;

pub const LEVEL_HEIGHT_I32: i32 = 10;

pub const TILE_SIZE_I16: i16 = 64;

pub const TILE_SIZE_I32: i32 = 64;

/// Centre of the last tile column: `(LEVEL_WIDTH / 2 - 1) * TILE_SIZE`.
pub const MAX_X_I16: i16 = 256;

pub const MAX_X_I32: i32 = 256;

/// Centre of the last tile row: `(LEVEL_HEIGHT / 2 - 1) * TILE_SIZE`.
pub const MAX_Y_I16: i16 = 256;

pub const MAX_Y_I32: i32 = 256;

/// Width of the level in pixel-units: `LEVEL_WIDTH * TILE_SIZE`.
pub const LEVEL_SPAN_X_I32: i32 = 640;

/// Height of the level in pixel-units: `LEVEL_HEIGHT * TILE_SIZE`.
pub const LEVEL_SPAN_Y_I32: i32 = 640;

pub proof fn lemma_level_geometry()
    ensures
        MAX_X_I32 == (LEVEL_WIDTH_I32 / 2 - 1) * TILE_SIZE_I32,
        MAX_Y_I32 == (LEVEL_HEIGHT_I32 / 2 - 1) * TILE_SIZE_I32,
        MAX_X_I16 == MAX_X_I32,
        MAX_Y_I16 == MAX_Y_I32,
        LEVEL_SPAN_X_I32 == LEVEL_WIDTH_I32 * TILE_SIZE_I32,
        LEVEL_SPAN_Y_I32 == LEVEL_HEIGHT_I32 * TILE_SIZE_I32,
        LEVEL_WIDTH_I16 == LEVEL_WIDTH_I32 == LEVEL_WIDTH_U32,
        LEVEL_HEIGHT_I16 == LEVEL_HEIGHT_I32 == LEVEL_HEIGHT_U32,
        TILE_SIZE_I16 == TILE_SIZE_I32,
{
}

} // verus!
