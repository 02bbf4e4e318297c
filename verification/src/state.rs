//! Where a client stands between start and play.

use vstd::prelude::*;

verus! {

#[derive(Clone, Copy, Debug, PartialEq, Eq, Hash, Structural)]
pub enum AppState {
    /// Not yet ready.
    Waiting,
    /// Connecting to a game.
    Connecting,
    /// In a game.
    InGame,
    /// Cut off from the game.
    Disconnected,
}

impl Default for AppState {
    /// A client begins by waiting.
    fn default() -> (state: AppState)
        ensures
            state == AppState::Waiting,
    {
        AppState::Waiting
    }
}

} // verus!
