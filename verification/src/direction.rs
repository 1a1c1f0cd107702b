//! Directions between corner points of a connector, and the joint
//! glyphs a renderer draws where the connector turns.

use crate::matrix::Position;
use vstd::prelude::*;

verus! {

/// An axis direction of travel along a connector segment.
#[derive(Clone, Copy, PartialEq, Eq, Structural, Debug)]
pub enum Direction {
    Up,
    Down,
    Left,
    Right,
}

impl Direction {
    /// The glyph for an ordered pair of outgoing directions, if that
    /// exact order has one.
    pub open spec fn spec_joint(a: Direction, b: Direction) -> Option<char> {
        match (a, b) {
            (Direction::Up, Direction::Down) => Some('\u{2502}'),
            (Direction::Left, Direction::Right) => Some('\u{2500}'),
            (Direction::Up, Direction::Right) => Some('\u{2570}'),
            (Direction::Right, Direction::Down) => Some('\u{256d}'),
            (Direction::Down, Direction::Left) => Some('\u{256e}'),
            (Direction::Left, Direction::Up) => Some('\u{256f}'),
            _ => None,
        }
    }

    pub fn _character_for_joint(directions: (Direction, Direction)) -> (r: Option<char>)
        ensures
            r == Direction::spec_joint(directions.0, directions.1),
    {
        match directions {
            (Direction::Up, Direction::Down) => Some('\u{2502}'),
            (Direction::Left, Direction::Right) => Some('\u{2500}'),
            (Direction::Up, Direction::Right) => Some('\u{2570}'),
            (Direction::Right, Direction::Down) => Some('\u{256d}'),
            (Direction::Down, Direction::Left) => Some('\u{256e}'),
            (Direction::Left, Direction::Up) => Some('\u{256f}'),
            _ => None,
        }
    }

    /// The glyph drawn where a connector enters along one direction and
    /// leaves along another.  The two outgoing directions must form a
    /// joint in one order or the other.
    pub fn character_for_joint(directions: (Direction, Direction)) -> (r: char)
        requires
            Direction::spec_joint(directions.0, directions.1) is Some || Direction::spec_joint(
                directions.1,
                directions.0,
            ) is Some,
        ensures
            Some(r) == (if Direction::spec_joint(directions.0, directions.1) is Some {
                Direction::spec_joint(directions.0, directions.1)
            } else {
                Direction::spec_joint(directions.1, directions.0)
            }),
    {
        match Direction::_character_for_joint(directions) {
            Some(c) => c,
            None => {
                match Direction::_character_for_joint((directions.1, directions.0)) {
                    Some(c) => c,
                    None => {
                        proof {
                            assert(false);
                        }
                        vstd::pervasive::unreached()
                    },
                }
            },
        }
    }

    /// The direction of travel from `start` to `end`.
    pub open spec fn spec_from_positions(start: Position, end: Position) -> Direction {
        if start.x == end.x {
            if end.y < start.y {
                Direction::Up
            } else {
                Direction::Down
            }
        } else {
            if end.x < start.x {
                Direction::Left
            } else {
                Direction::Right
            }
        }
    }

    /// The direction of travel between two distinct positions sharing a
    /// row or a column.
    pub fn from_positions(start: Position, end: Position) -> (r: Direction)
        requires
            start != end,
            start.x == end.x || start.y == end.y,
        ensures
            r == Direction::spec_from_positions(start, end),
    {
        if start.x == end.x {
            if end.y < start.y {
                Direction::Up
            } else {
                Direction::Down
            }
        } else if start.y == end.y {
            if end.x < start.x {
                Direction::Left
            } else {
                Direction::Right
            }
        } else {
            proof {
                assert(false);
            }
            vstd::pervasive::unreached()
        }
    }
}

} // verus!
