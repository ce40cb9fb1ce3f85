//! The most commonly used types and functions of this crate.
pub use crate::board::array_board::ArrayBoard;
pub use crate::board::BitBoard;
pub use crate::board::Board;
pub use crate::board::Column;
pub use crate::board::ScoredMove;
pub use crate::board::HEIGHT;
pub use crate::board::WIDTH;
pub use crate::solver::negamax_ab::NegamaxSolver;
pub use crate::solver::negamax_id_nw::NegamaxID;
pub use crate::solver::score;
pub use crate::solver::SolveResult;
pub use crate::solver::Solver;
pub use crate::transposition_table::TranspositionTable;
