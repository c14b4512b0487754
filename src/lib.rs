//! Search engine for four-in-a-row on a 4x4x4 cube: bitboards and the winning lines,
//! a static evaluator, forced-move detection, move ordering, a transposition table,
//! and negamax with alpha-beta pruning under iterative deepening.

pub mod board;
pub mod eval;
pub mod tt;
pub mod movegen;
pub mod search;
pub mod fastwin;
