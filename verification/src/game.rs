//! One running game: a freshly dealt board and the moment it started.

use crate::board::Board;
use crate::matrix::Position;
use vstd::prelude::*;

verus! {

/// The smallest terminal height a game fits in.
pub const MIN_HEIGHT: u16 = 13;

/// The smallest terminal width a game fits in.
pub const MIN_WIDTH: u16 = 21;

/// A board in play since `started` (milliseconds of the caller's
/// clock).
pub struct Game {
    pub started: u64,
    pub board: Board,
}

impl Game {
    /// Deals a default-size board and starts the clock at `now`.
    pub fn new(now: u64) -> (r: Game)
        ensures
            r.started == now,
            r.board.wf(),
            r.board.confirmed_selection is None,
            r.board.tentative_selection is None,
            r.board.shown_path is None,
    {
        Game { started: now, board: Board::default() }
    }

    /// Feeds one click through to the board.
    pub fn click(&mut self, position: Position, now: u64)
        requires
            old(self).board.wf(),
        ensures
            final(self).board.wf(),
            final(self).started == old(self).started,
            Board::clicked_rel(old(self).board, position, now, final(self).board),
    {
        self.board.click(position, now)
    }
}

} // verus!
