use vstd::prelude::*;

verus! {

/// Where a session stands. `Failed` is left only by starting over.
#[derive(Clone, Copy, PartialEq, Eq, Debug, Hash, Structural)]
pub enum GameState {
    StartScreen,
    Playing,
    Failed,
}

impl Default for GameState {
    fn default() -> (state: Self)
        ensures
            state == GameState::StartScreen,
    {
        GameState::StartScreen
    }
}

} // verus!
