use vstd::prelude::*;

verus! {

/// The three screens the process cycles through for its whole life:
/// the main menu, a running round, and the game-over screen.
#[derive(Debug, Clone, Copy, Eq, PartialEq, Hash, Structural)]
pub enum GameState {
    MainMenu,
    InGame,
    GameOver,
}

impl Default for GameState {
    /// The process starts on the main menu.
    fn default() -> (s: GameState)
        ensures
            s == GameState::MainMenu,
    {
        GameState::MainMenu
    }
}

} // verus!
