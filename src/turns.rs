use vstd::prelude::*;
use crate::board::{
    Cell, Game, cells, count_of, count_upto, empty_board, full, lemma_count_after_fill, opponent,
    wins,
};

verus! {

/// The board and the side to move after each move of `moves` (row-major cell
/// indices) was made from the start and followed by a change of turn.
pub open spec fn play(moves: Seq<int>) -> (Seq<Cell>, Cell)
    decreases moves.len(),
{
    if moves.len() == 0 {
        (empty_board(), Cell::X)
    } else {
        let (g, c) = play(moves.drop_last());
        (g.update(moves.last(), c), opponent(c))
    }
}

/// Each move of `moves` fills a cell that is empty at its turn.
pub open spec fn legal(moves: Seq<int>) -> bool
    decreases moves.len(),
{
    if moves.len() == 0 {
        true
    } else {
        &&& legal(moves.drop_last())
        &&& 0 <= moves.last() < 9
        &&& play(moves.drop_last()).0[moves.last()] == Cell::Empty
    }
}

/// No mark is on the empty board.
proof fn lemma_count_empty_board(m: Cell, n: int)
    requires
        m != Cell::Empty,
        0 <= n <= 9,
    ensures
        count_upto(empty_board(), m, n) == 0,
    decreases n,
{
    if n > 0 {
        lemma_count_empty_board(m, n - 1);
    }
}

/// Moves made in turn from the empty board, each on an empty cell and each
/// followed by a change of turn, keep the number of `X` marks equal to that
/// of `O` marks when `X` is to move, and one above it when `O` is to move;
/// so the difference is always 0 or 1.
pub proof fn turns_keep_marks_balanced(moves: Seq<int>)
    requires
        legal(moves),
    ensures
        play(moves).0.len() == 9,
        play(moves).1 == Cell::X ==> count_of(play(moves).0, Cell::X) == count_of(play(moves).0, Cell::O),
        play(moves).1 == Cell::O ==> count_of(play(moves).0, Cell::X) == count_of(play(moves).0, Cell::O) + 1,
        play(moves).1 != Cell::Empty,
        0 <= count_of(play(moves).0, Cell::X) - count_of(play(moves).0, Cell::O) <= 1,
    decreases moves.len(),
{
    if moves.len() == 0 {
        lemma_count_empty_board(Cell::X, 9);
        lemma_count_empty_board(Cell::O, 9);
    } else {
        let prev = moves.drop_last();
        turns_keep_marks_balanced(prev);
        let (g, c) = play(prev);
        lemma_count_after_fill(g, moves.last(), c);
    }
}

/// Where a game stands after a move.
#[derive(Clone, Copy, PartialEq, Eq, Structural, Debug)]
pub enum Outcome {
    /// Nobody has won and a cell is still empty; the other side is to move.
    InProgress,
    /// The side that just moved holds a whole line.
    Win(Cell),
    /// Every cell is occupied and nobody has won.
    Draw,
}

impl Game {
    /// Makes a move for the side to move at `(row, col)` and reports where the
    /// game stands: `None` if the cell is occupied (nothing changes), a win for
    /// the mover, a draw on a full board, or else play goes on with the turn
    /// handed over.
    pub fn play_move(&mut self, row: usize, col: usize) -> (r: Option<Outcome>)
        requires
            row < 3,
            col < 3,
            old(self).current_player != Cell::Empty,
        ensures
            ({
                let g = cells(old(self).board);
                let k = 3 * row + col;
                let m = old(self).current_player;
                let after = g.update(k, m);
                if g[k] != Cell::Empty {
                    &&& r is None
                    &&& final(self).board == old(self).board
                    &&& final(self).current_player == m
                } else {
                    &&& cells(final(self).board) == after
                    &&& wins(after, m) ==> r == Some(Outcome::Win(m)) && final(self).current_player == m
                    &&& !wins(after, m) && full(after) ==> r == Some(Outcome::Draw)
                        && final(self).current_player == m
                    &&& !wins(after, m) && !full(after) ==> r == Some(Outcome::InProgress)
                        && final(self).current_player == opponent(m)
                }
            }),
    {
        if !self.make_move(row, col) {
            return None;
        }
        let mover = self.current_player;
        if self.is_winner(&mover) {
            return Some(Outcome::Win(mover));
        }
        if self.is_draw() {
            return Some(Outcome::Draw);
        }
        self.switch_player();
        Some(Outcome::InProgress)
    }
}

} // verus!