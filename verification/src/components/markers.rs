//! Marker components: their presence on an entity is all they say.

use vstd::prelude::*;

verus! {

/// A player.
#[derive(Clone, Copy, Debug, PartialEq, Eq, Structural)]
pub struct Crab;

/// A raft, which carries players across river rows.
#[derive(Clone, Copy, Debug, PartialEq, Eq, Structural)]
pub struct Raft;

/// A car, which knocks out players on road rows.
#[derive(Clone, Copy, Debug, PartialEq, Eq, Structural)]
pub struct Car;

/// Freezes a player: no motor, input, score or collision pass touches an
/// entity that carries it.
#[derive(Clone, Copy, Debug, PartialEq, Eq, Structural)]
pub struct Knockout;

} // verus!
