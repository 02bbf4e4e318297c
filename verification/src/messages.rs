//! What client and server tell each other, as far as the simulation reads
//! it.

use vstd::prelude::*;
use crate::inputs::{EntityId, InputAction};

verus! {

/// Server to client: the entity that the client controls. `entity` is
/// `None` until the message is addressed, and where the receiver does not
/// know the entity.
#[derive(Clone, Copy, Debug, PartialEq, Eq, Structural)]
pub struct PlayerAssignmentMessage {
    pub entity: Option<EntityId>,
}

impl PlayerAssignmentMessage {
    pub fn new() -> (message: PlayerAssignmentMessage)
        ensures
            message.entity is None,
    {
        PlayerAssignmentMessage { entity: None }
    }
}

impl Default for PlayerAssignmentMessage {
    fn default() -> (message: PlayerAssignmentMessage)
        ensures
            message.entity is None,
    {
        Self::new()
    }
}

/// Client to server: the action of one entity at one tick. `entity` is
/// `None` until the message is addressed, and where the receiver does not
/// know the entity.
#[derive(Clone, Copy, Debug, PartialEq, Eq, Structural)]
pub struct InputMessage {
    pub entity: Option<EntityId>,
    pub action: Option<InputAction>,
}

impl InputMessage {
    pub fn new(action: Option<InputAction>) -> (message: InputMessage)
        ensures
            message == (InputMessage { entity: None, action }),
    {
        InputMessage { entity: None, action }
    }
}

} // verus!
