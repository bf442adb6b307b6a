pub mod plugins;
pub mod physics;
pub mod net;

use vstd::prelude::*;

verus! {

/// Top-level state of the game
#[derive(Clone, Copy, Debug, PartialEq, Eq, Hash, Structural)]
pub enum GameState {
    Loading,
    Connecting,
    Playing,
}

impl Default for GameState {
    fn default() -> (r: Self)
        ensures
            r == GameState::Loading,
    {
        GameState::Loading
    }
}

} // verus!
