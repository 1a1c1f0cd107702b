//! The selection state machine: turns clicks and key presses into board
//! mutations.
//!
//! A click on an occupied cell anchors a selection; a second click on an
//! occupied cell resolves the pair: equal tiles joined by a legal
//! connector are cleared and the connector is recorded for transient
//! display, anything else re-anchors the selection.  Arrow keys move a
//! free tentative cursor with toroidal wraparound on the interior play
//! area; Enter promotes or resolves it, Backspace drops the anchor.

use crate::board::Board;
use crate::matrix::{Position, Size};
use crate::tile::Tile;
use vstd::prelude::*;

verus! {

/// One decoded key press.
#[derive(Clone, Copy, PartialEq, Eq, Structural, Debug)]
pub enum Key {
    Right,
    Left,
    Up,
    Down,
    Enter,
    Backspace,
    Other,
}

impl Board {
    /// This board with another anchored selection.
    pub open spec fn with_confirmed(self, c: Option<Position>) -> Board {
        Board {
            tiles: self.tiles,
            confirmed_selection: c,
            tentative_selection: self.tentative_selection,
            shown_path: self.shown_path,
        }
    }

    /// This board with another tentative selection.
    pub open spec fn with_tentative(self, t: Option<(u64, Position)>) -> Board {
        Board {
            tiles: self.tiles,
            confirmed_selection: self.confirmed_selection,
            tentative_selection: t,
            shown_path: self.shown_path,
        }
    }

    /// How resolving a pair (an anchored pick `a` and a tentative pick
    /// `b`, both present in `pre`) changes the board.  Two distinct,
    /// occupied, equal tiles joined by a legal connector are cleared,
    /// the connector is recorded at time `now`, and a transient
    /// highlight stays at `b`; in every other case the selection simply
    /// re-anchors at `b`.
    pub open spec fn resolve_rel(pre: Board, now: u64, post: Board) -> bool
        recommends
            pre.confirmed_selection is Some,
            pre.tentative_selection is Some,
    {
        let a = pre.confirmed_selection->Some_0;
        let b = pre.tentative_selection->Some_0.1;
        if a != b && pre.at_spec(a) is Some && pre.at_spec(b) is Some && pre.at_spec(a)
            == pre.at_spec(b) && pre.tiles.has_path(a, b, pre.at_spec(b)->Some_0) {
            &&& post.tiles.size == pre.tiles.size
            &&& forall|q: Position|
                pre.tiles.size.spec_contains(q) ==> #[trigger] post.tiles.cell(q) == (if q == a || q
                    == b {
                    None::<Tile>
                } else {
                    pre.tiles.cell(q)
                })
            &&& post.confirmed_selection is None
            &&& post.tentative_selection == Some((now, b))
            &&& match post.shown_path {
                Some((ts, p)) => ts == now && pre.tiles.path_ok(
                    a,
                    b,
                    pre.at_spec(b)->Some_0,
                    p@,
                ),
                None => false,
            }
        } else {
            &&& post.tiles == pre.tiles
            &&& post.confirmed_selection == Some(b)
            &&& post.tentative_selection is None
            &&& post.shown_path == pre.shown_path
        }
    }

    /// How one click at `pos` changes the board: clicking the anchor
    /// drops it, clicking an empty cell does nothing, a first click
    /// anchors, and a second click resolves the pair.
    pub open spec fn clicked_rel(pre: Board, pos: Position, now: u64, post: Board) -> bool {
        if pre.confirmed_selection == Some(pos) {
            post == pre.with_confirmed(None::<Position>)
        } else if pre.at_spec(pos) is None {
            post == pre
        } else if pre.confirmed_selection is None {
            post == pre.with_confirmed(Some(pos)).with_tentative(None::<(u64, Position)>)
        } else {
            Board::resolve_rel(pre.with_tentative(Some((now, pos))), now, post)
        }
    }

    /// How Enter changes the board: a lone tentative pick on an
    /// occupied cell is promoted to the anchor, a full pair resolves,
    /// anything else is a no-op.
    pub open spec fn confirm_rel(pre: Board, now: u64, post: Board) -> bool {
        match (pre.tentative_selection, pre.confirmed_selection) {
            (Some((_, t)), None) => if pre.at_spec(t) is Some {
                post == pre.with_confirmed(Some(t)).with_tentative(None::<(u64, Position)>)
            } else {
                post == pre
            },
            (Some(_), Some(_)) => Board::resolve_rel(pre, now, post),
            _ => post == pre,
        }
    }

    /// Where one wrapping cursor step of `(dx, dy)` from `p` lands: the
    /// interior play area is a torus, the padding ring is never entered.
    pub open spec fn cursor_step(self, p: Position, dx: int, dy: int) -> Position {
        Position {
            x: (1 + Position::spec_wrap_step(
                p.x - 1,
                dx,
                self.tiles.size.width - 2,
            )) as usize,
            y: (1 + Position::spec_wrap_step(
                p.y - 1,
                dy,
                self.tiles.size.height - 2,
            )) as usize,
        }
    }

    /// How a directional key changes the board: an existing cursor
    /// steps once with wraparound; a missing cursor is seeded at the
    /// anchor, or at the first interior cell without an anchor.  A
    /// cursor that would sit exactly on the anchor steps once more.
    pub open spec fn moved_rel(pre: Board, dx: int, dy: int, now: u64, post: Board) -> bool {
        let stepped = match pre.tentative_selection {
            Some((_, p)) => pre.cursor_step(p, dx, dy),
            None => match pre.confirmed_selection {
                Some(c) => c,
                None => Position { x: 1, y: 1 },
            },
        };
        let dest = if pre.confirmed_selection == Some(stepped) {
            pre.cursor_step(stepped, dx, dy)
        } else {
            stepped
        };
        &&& post.tiles == pre.tiles
        &&& post.confirmed_selection == pre.confirmed_selection
        &&& post.shown_path == pre.shown_path
        &&& post.tentative_selection == Some((now, dest))
    }

    /// One wrapping cursor step, executable.
    fn cursor_step_exec(&self, p: Position, dx: isize, dy: isize) -> (q: Position)
        requires
            self.wf(),
            self.interior(p),
            -1 <= dx <= 1,
            -1 <= dy <= 1,
        ensures
            q == self.cursor_step(p, dx as int, dy as int),
            self.interior(q),
    {
        let s = self.tiles.size();
        let mut inner = Position { x: p.x - 1, y: p.y - 1 };
        inner.move_wrapping(dx, dy, Size { width: s.width - 2, height: s.height - 2 });
        Position { x: inner.x + 1, y: inner.y + 1 }
    }

    /// Resolves the current pair (both selections must be present).
    pub fn process_selections(&mut self, now: u64)
        requires
            old(self).wf(),
            old(self).confirmed_selection is Some,
            old(self).tentative_selection is Some,
        ensures
            final(self).wf(),
            Board::resolve_rel(*old(self), now, *final(self)),
    {
        let start = match self.confirmed_selection {
            Some(c) => c,
            None => {
                proof {
                    assert(false);
                }
                vstd::pervasive::unreached()
            },
        };
        let end = match self.tentative_selection {
            Some((_, p)) => p,
            None => {
                proof {
                    assert(false);
                }
                vstd::pervasive::unreached()
            },
        };
        let ta = self.at(start);
        let tb = self.at(end);
        let same_tile = match (ta, tb) {
            (Some(x), Some(y)) => x == y,
            _ => false,
        };
        let distinct = start.x != end.x || start.y != end.y;
        if distinct && same_tile {
            match self.tiles.find_path(start, end) {
                Some(p) => {
                    let ghost pre = *self;
                    let did1 = self.tiles.set(start, None);
                    let ghost mid = self.tiles;
                    let did2 = self.tiles.set(end, None);
                    self.shown_path = Some((now, p));
                    self.tentative_selection = Some((now, end));
                    self.confirmed_selection = None;
                    proof {
                        assert(did1 && did2);
                        assert forall|q: Position|
                            pre.tiles.size.spec_contains(q) implies #[trigger] self.tiles.cell(q)
                            == (if q == start || q == end {
                            None::<Tile>
                        } else {
                            pre.tiles.cell(q)
                        }) by {
                            pre.tiles.lemma_idx_injective(q, start);
                            pre.tiles.lemma_idx_injective(q, end);
                            pre.tiles.lemma_idx_injective(start, q);
                            pre.tiles.lemma_idx_injective(end, q);
                            assert(mid.data@ == pre.tiles.data@.update(
                                pre.tiles.spec_idx(start),
                                None::<Tile>,
                            ));
                            assert(mid.spec_idx(end) == pre.tiles.spec_idx(end));
                            assert(self.tiles.data@ == mid.data@.update(
                                pre.tiles.spec_idx(end),
                                None::<Tile>,
                            ));
                            assert(self.tiles.spec_idx(q) == pre.tiles.spec_idx(q));
                            if q == start {
                                assert(self.tiles.data@[pre.tiles.spec_idx(q)] is None);
                            } else if q == end {
                                assert(self.tiles.data@[pre.tiles.spec_idx(q)] is None);
                            } else {
                                assert(pre.tiles.spec_idx(q) != pre.tiles.spec_idx(start));
                                assert(pre.tiles.spec_idx(q) != pre.tiles.spec_idx(end));
                                assert(self.tiles.data@[pre.tiles.spec_idx(q)]
                                    == pre.tiles.data@[pre.tiles.spec_idx(q)]);
                            }
                        }
                        // a cleared pair sits off the padding ring
                        assert(pre.tiles.cell(end) is Some);
                        assert(pre.tiles.cell(start) is Some);
                    }
                },
                None => {
                    self.confirmed_selection = Some(end);
                    self.tentative_selection = None;
                },
            }
        } else {
            self.confirmed_selection = Some(end);
            self.tentative_selection = None;
        }
    }

    /// Feeds one click at `pos`, stamped `now`.
    pub fn on_click(&mut self, pos: Position, now: u64)
        requires
            old(self).wf(),
        ensures
            final(self).wf(),
            Board::clicked_rel(*old(self), pos, now, *final(self)),
    {
        // clicking the anchored tile cancels the anchor
        match self.confirmed_selection {
            Some(c) => {
                if c.x == pos.x && c.y == pos.y {
                    self.confirmed_selection = None;
                    return ;
                }
            },
            None => {},
        }
        // a click on an empty cell is ignored
        if !self.is_occupied(pos) {
            return ;
        }
        proof {
            // an occupied cell sits off the padding ring
            assert(self.tiles.cell(pos) is Some);
        }
        if self.confirmed_selection.is_some() {
            self.tentative_selection = Some((now, pos));
            self.process_selections(now);
        } else {
            self.confirmed_selection = Some(pos);
            self.tentative_selection = None;
        }
    }

    /// Feeds one click at `pos`, stamped `now` (pointer-only callers).
    pub fn click(&mut self, pos: Position, now: u64)
        requires
            old(self).wf(),
        ensures
            final(self).wf(),
            Board::clicked_rel(*old(self), pos, now, *final(self)),
    {
        self.on_click(pos, now)
    }

    /// Promotes or resolves the tentative selection (Enter).
    pub fn confirm_selection(&mut self, now: u64)
        requires
            old(self).wf(),
        ensures
            final(self).wf(),
            Board::confirm_rel(*old(self), now, *final(self)),
    {
        let promote = match (self.tentative_selection, self.confirmed_selection) {
            (Some(_), Some(_)) => {
                self.process_selections(now);
                return ;
            },
            (Some((_, t)), None) => Some(t),
            _ => None,
        };
        match promote {
            Some(t) => {
                if self.is_occupied(t) {
                    self.confirmed_selection = Some(t);
                    self.tentative_selection = None;
                }
            },
            None => {},
        }
    }

    /// Drops the anchored selection (Backspace); the cursor stays.
    pub fn undo_selection(&mut self)
        requires
            old(self).wf(),
        ensures
            final(self).wf(),
            *final(self) == old(self).with_confirmed(None::<Position>),
    {
        self.confirmed_selection = None;
    }

    /// Moves the tentative cursor one step, seeding it if absent.
    pub fn move_selection(&mut self, x_delta: isize, y_delta: isize, now: u64)
        requires
            old(self).wf(),
            -1 <= x_delta <= 1,
            -1 <= y_delta <= 1,
        ensures
            final(self).wf(),
            Board::moved_rel(*old(self), x_delta as int, y_delta as int, now, *final(self)),
    {
        match self.tentative_selection {
            Some((_, p)) => {
                let q = self.cursor_step_exec(p, x_delta, y_delta);
                self.tentative_selection = Some((now, q));
            },
            None => {
                let seed = match self.confirmed_selection {
                    Some(c) => c,
                    None => Position { x: 1, y: 1 },
                };
                self.tentative_selection = Some((now, seed));
            },
        }
        // a cursor that lands exactly on the anchor steps once more
        let overlap = match (self.tentative_selection, self.confirmed_selection) {
            (Some((_, t)), Some(c)) => t.x == c.x && t.y == c.y,
            _ => false,
        };
        if overlap {
            let t = match self.tentative_selection {
                Some((_, t)) => t,
                None => {
                    proof {
                        assert(false);
                    }
                    vstd::pervasive::unreached()
                },
            };
            let q = self.cursor_step_exec(t, x_delta, y_delta);
            self.tentative_selection = Some((now, q));
        }
    }

    /// Feeds one key press, stamped `now`; reports whether it was
    /// consumed.
    pub fn on_key(&mut self, key: Key, now: u64) -> (consumed: bool)
        requires
            old(self).wf(),
        ensures
            final(self).wf(),
            consumed == !(key is Other),
            match key {
                Key::Right => Board::moved_rel(*old(self), 1, 0, now, *final(self)),
                Key::Left => Board::moved_rel(*old(self), -1, 0, now, *final(self)),
                Key::Up => Board::moved_rel(*old(self), 0, -1, now, *final(self)),
                Key::Down => Board::moved_rel(*old(self), 0, 1, now, *final(self)),
                Key::Enter => Board::confirm_rel(*old(self), now, *final(self)),
                Key::Backspace => *final(self) == old(self).with_confirmed(None::<Position>),
                Key::Other => *final(self) == *old(self),
            },
    {
        match key {
            Key::Right => {
                self.move_selection(1, 0, now);
                true
            },
            Key::Left => {
                self.move_selection(-1, 0, now);
                true
            },
            Key::Up => {
                self.move_selection(0, -1, now);
                true
            },
            Key::Down => {
                self.move_selection(0, 1, now);
                true
            },
            Key::Enter => {
                self.confirm_selection(now);
                true
            },
            Key::Backspace => {
                self.undo_selection();
                true
            },
            Key::Other => false,
        }
    }
}

} // verus!
