//! Deterministic tick simulation for a road-and-river crossing game, with the
//! client-side prediction and server reconciliation that keep networked play
//! in step.
//!
//! Coordinates are whole pixel-units, and sums that leave the coordinate
//! range stop at its ends. The world is an explicit table of entities that
//! the caller owns and hands to each call; entities are named by their
//! index in it. What happens in a tick is a function of that table and of
//! the actions due, written down as `tick::spec_core_tick`.

pub mod components;
pub mod constants;
pub mod inputs;
pub mod world;
pub mod tick;
pub mod history;
pub mod rollback;
pub mod bundles;
pub mod messages;
pub mod events;
pub mod prediction;
pub mod server;
pub mod controller;
pub mod state;
