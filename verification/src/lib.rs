//! An exact solver for the game of four in a line on a board of seven
//! columns and six rows.
//!
//! A position is scored for the player to move: positive if that player
//! wins, negative if the opponent does, zero for a draw; the sooner the
//! game ends, the further from zero. The solvers compute that score by
//! exhaustive search.
use vstd::prelude::*;

pub mod bits;
pub mod board;
pub mod game;
pub mod layout;
pub mod move_queue;
pub mod position;
pub mod prelude;
pub mod solver;
pub mod transposition_table;

verus! {

} // verus!
