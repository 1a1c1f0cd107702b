//! A tile-matching solitaire engine (Shisen-Sho).
//!
//! Tiles sit on a rectangular grid surrounded by an always-empty border
//! ring.  Two tiles of the same type may be removed together when an
//! orthogonal path of at most three straight segments (two turns) connects
//! them through empty cells.  The crate provides the grid, the tile
//! catalog, the deck setup and shuffle, the turn-limited connectivity
//! search, and the selection state machine that turns clicks and key
//! presses into board mutations.  Rendering and event capture live outside
//! the crate; they only read the board state exposed here.

pub mod board;
pub mod direction;
pub mod elapsed;
pub mod events;
pub mod game;
pub mod matrix;
pub mod path;
pub mod tile;
pub mod ui;
