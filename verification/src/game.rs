use vstd::prelude::*;

use crate::player::MAX_TICK_MS;
use crate::round::{
    fresh_round, round_wf, start_round, tick_spec, MapLoadError, Round, RoundModel,
};
use crate::tilemap::MAX_MAP_BYTES;
use crate::types::GameState;

verus! {

/// The whole process state: which screen is live, and the round-scoped
/// entities, present exactly while a round runs.
pub struct Game {
    pub state: GameState,
    pub round: Option<Round>,
}

/// Mathematical image of a `Game`.
pub ghost struct GameModel {
    pub state: GameState,
    pub round: Option<RoundModel>,
}

impl View for Game {
    type V = GameModel;

    open spec fn view(&self) -> GameModel {
        GameModel {
            state: self.state,
            round: match self.round {
                Some(r) => Some(r@),
                None => None,
            },
        }
    }
}

/// A game is well formed when round-scoped state exists exactly during a
/// round — one player and one tile set while in game, none otherwise —
/// and the round itself is well formed.
pub open spec fn game_wf(g: GameModel) -> bool {
    &&& (g.state == GameState::InGame <==> g.round is Some)
    &&& (g.round matches Some(r) ==> round_wf(r))
}

/// Where a confirm or cancel input sends each menu screen: confirm starts
/// (or restarts) a round from the main menu or the game-over screen;
/// cancel leaves the game-over screen for the main menu, and wins over a
/// simultaneous confirm. A running round ignores both.
pub open spec fn menu_target(s: GameState, confirm: bool, cancel: bool) -> GameState {
    match s {
        GameState::MainMenu => if confirm {
            GameState::InGame
        } else {
            GameState::MainMenu
        },
        GameState::InGame => GameState::InGame,
        GameState::GameOver => if cancel {
            GameState::MainMenu
        } else if confirm {
            GameState::InGame
        } else {
            GameState::GameOver
        },
    }
}

impl Game {
    /// A fresh process: on the main menu, with no round-scoped state.
    pub fn new() -> (g: Game)
        ensures
            g@.state == GameState::MainMenu,
            g@.round is None,
            game_wf(g@),
    {
        Game { state: GameState::default(), round: None }
    }

    /// Feed the menu screens one frame of confirm/cancel input. Entering
    /// a round loads the level from `map_text`, resets the score to zero
    /// and spawns exactly one player at the start position; a missing map
    /// text (`None`) is a fatal load error and the round is not entered.
    /// A running round is left untouched.
    pub fn menu_step(&mut self, confirm: bool, cancel: bool, map_text: &Option<Vec<u8>>)
        -> (r: Result<(), MapLoadError>)
        requires
            game_wf(old(self)@),
            map_text matches Some(t) ==> t@.len() <= MAX_MAP_BYTES,
        ensures
            game_wf(final(self)@),
            old(self)@.state == GameState::InGame
                ==> final(self)@ == old(self)@ && r is Ok,
            ({
                let tgt = menu_target(old(self)@.state, confirm, cancel);
                &&& (old(self)@.state != GameState::InGame && tgt != GameState::InGame
                    ==> final(self)@.state == tgt && final(self)@.round is None && r is Ok)
                &&& (old(self)@.state != GameState::InGame && tgt == GameState::InGame
                    ==> match map_text {
                        Some(t) => r is Ok && final(self)@.state == GameState::InGame
                            && final(self)@.round == Some(fresh_round(t@)),
                        None => r is Err && final(self)@ == old(self)@,
                    })
            }),
    {
        match self.state {
            GameState::MainMenu => {
                if confirm {
                    match start_round(map_text) {
                        Ok(rd) => {
                            self.round = Some(rd);
                            self.state = GameState::InGame;
                            Ok(())
                        }
                        Err(e) => Err(e),
                    }
                } else {
                    Ok(())
                }
            }
            GameState::InGame => Ok(()),
            GameState::GameOver => {
                if cancel {
                    self.state = GameState::MainMenu;
                    Ok(())
                } else if confirm {
                    match start_round(map_text) {
                        Ok(rd) => {
                            self.round = Some(rd);
                            self.state = GameState::InGame;
                            Ok(())
                        }
                        Err(e) => Err(e),
                    }
                } else {
                    Ok(())
                }
            }
        }
    }

    /// Run one simulation tick of the current round. When the tick ends
    /// the round — win threshold reached or player out of bounds — the
    /// state moves to game over and every round-scoped entity (player,
    /// tiles, scoreboard) is torn down at once.
    pub fn tick(&mut self, input_x: i64, input_y: i64, dt_ms: u32) -> (over: bool)
        requires
            game_wf(old(self)@),
            old(self)@.state == GameState::InGame,
            input_x == -1 || input_x == 0 || input_x == 1,
            input_y == 0 || input_y == 1,
            dt_ms <= MAX_TICK_MS,
        ensures
            game_wf(final(self)@),
            ({
                let (r1, o) = tick_spec(old(self)@.round.unwrap(), input_x as int,
                    input_y as int, dt_ms as int);
                &&& over == o
                &&& (o ==> final(self)@.state == GameState::GameOver
                    && final(self)@.round is None)
                &&& (!o ==> final(self)@.state == GameState::InGame
                    && final(self)@.round == Some(r1))
            }),
    {
        let over: bool;
        match &mut self.round {
            Some(r) => {
                over = r.tick(input_x, input_y, dt_ms);
            }
            None => {
                // Never reached: a well-formed in-game state carries a round.
                over = false;
            }
        }
        if over {
            self.state = GameState::GameOver;
            self.round = None;
        }
        over
    }
}

} // verus!
