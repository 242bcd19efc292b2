//! A verified engine for noughts and crosses on a 3x3 grid: the board, the
//! detection of wins and draws, moves and turns, an exhaustive minimax search
//! for the first player, a random choice among the empty cells, and the
//! reading of moves and menu answers from lines of text.

pub mod board;
pub mod search;
pub mod random;
pub mod turns;
pub mod input;
