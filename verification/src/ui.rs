//! The two screens the program cycles through: a home screen and a
//! running game.

use crate::game::Game;
use vstd::prelude::*;

verus! {

/// Whether the outer event loop should stop or carry on.
#[derive(Clone, Copy, PartialEq, Eq, Structural, Debug)]
pub enum ControlFlow {
    Break,
    Continue,
}

/// Which screen is showing.
pub enum GameState {
    Home,
    Playing(Game),
}

/// The whole user-facing state.
pub struct Ui {
    pub state: GameState,
}

impl Default for GameState {
    fn default() -> (r: GameState)
        ensures
            r is Home,
    {
        GameState::Home
    }
}

impl Default for Ui {
    fn default() -> (r: Ui)
        ensures
            r.state is Home,
    {
        Ui { state: GameState::Home }
    }
}

impl Ui {
    /// Leaves the home screen for a fresh game started at `now`.
    pub fn start(&mut self, now: u64)
        ensures
            final(self).state is Playing,
            final(self).state->Playing_0.started == now,
            final(self).state->Playing_0.board.wf(),
    {
        self.state = GameState::Playing(Game::new(now));
    }

    /// One periodic tick; the engine advances nothing by itself.
    pub fn tick(&mut self) -> (r: ControlFlow)
        ensures
            r is Continue,
            *final(self) == *old(self),
    {
        ControlFlow::Continue
    }
}

} // verus!
