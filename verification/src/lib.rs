//! A rules engine and adversarial search AI for English draughts
//! (checkers) with mandatory captures and kings.
//!
//! The crate is organised leaf-first: `geom` holds coordinates, directions
//! and pieces; `rules` gives the mathematical model of a position and of the
//! single legality-checked transition; `zobrist` the position fingerprint;
//! `board` the executable state machine; `heuristic` the static evaluator
//! and the move orderer; `search` the bounded alpha-beta engine and the
//! root move selector; `laws` the proved game-level properties.

pub mod board;
pub mod geom;
pub mod rules;
pub mod zobrist;

pub mod heuristic;
pub mod laws;
pub mod search;

pub use board::Board;
pub use geom::{cell, Cell, CellPos, Color, MoveDir, Piece, PieceMove};
pub use heuristic::{heuristic, sort_by_heuristic};
pub use search::{evaluate, AI};

use vstd::prelude::*;

verus! {

/// The score of a lost game; also the widest search window's lower bound.
pub const LOST: i64 = -1_000_000;

/// The score of a won game; also the widest search window's upper bound.
pub const WIN: i64 = 1_000_000;

} // verus!
