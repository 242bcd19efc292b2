use vstd::prelude::*;
use crate::board::{Cell, Game, cells, count_of, full, lemma_count_after_fill, lemma_count_upto_update, wins};

verus! {

/// The mark placed by the maximizing side (`X`) or the minimizing side (`O`).
pub open spec fn mark_of(maximizing: bool) -> Cell {
    if maximizing {
        Cell::X
    } else {
        Cell::O
    }
}

/// The minimax value of position `g` at search depth `depth`, with the
/// maximizing side (`X`) to move when `maximizing` holds. A win for `X`
/// is worth `10 - depth`, a win for `O` is worth `depth - 10`, a full board
/// without a winner is worth 0; otherwise the value is the best of the values
/// of the positions reached by filling one empty cell.
pub open spec fn score(g: Seq<Cell>, depth: int, maximizing: bool) -> int
    decreases count_of(g, Cell::Empty), 10int, 0int,
{
    if wins(g, Cell::X) {
        10 - depth
    } else if wins(g, Cell::O) {
        depth - 10
    } else if full(g) {
        0
    } else {
        best_upto(g, depth, maximizing, 9)
    }
}

/// The value of filling the empty cell at index `k` of `g` with the mark of
/// the side to move, and searching on one level deeper.
pub open spec fn child_score(g: Seq<Cell>, depth: int, maximizing: bool, k: int) -> int
    decreases count_of(g, Cell::Empty), 0int, 0int,
    when 0 <= k < 9 && g.len() == 9 && g[k] == Cell::Empty
    via child_score_decreases
{
    score(g.update(k, mark_of(maximizing)), depth + 1, !maximizing)
}

#[via_fn]
proof fn child_score_decreases(g: Seq<Cell>, depth: int, maximizing: bool, k: int) {
    if 0 <= k < 9 && g.len() == 9 && g[k] == Cell::Empty {
        lemma_count_after_fill(g, k, mark_of(maximizing));
    }
}

/// The best child value over the empty cells among the first `n` cells of
/// `g` (the maximum for `X`, the minimum for `O`); `i32::MIN` or `i32::MAX`
/// where there is none.
pub open spec fn best_upto(g: Seq<Cell>, depth: int, maximizing: bool, n: int) -> int
    decreases count_of(g, Cell::Empty), n, 1int,
{
    if n <= 0 || n > 9 || g.len() != 9 {
        if maximizing {
            i32::MIN as int
        } else {
            i32::MAX as int
        }
    } else {
        let prev = best_upto(g, depth, maximizing, n - 1);
        if g[n - 1] == Cell::Empty {
            let s = child_score(g, depth, maximizing, n - 1);
            if maximizing {
                if s > prev { s } else { prev }
            } else {
                if s < prev { s } else { prev }
            }
        } else {
            prev
        }
    }
}

/// One step of `best_upto`: the cell at index `k` is taken into account.
proof fn lemma_best_step(g: Seq<Cell>, depth: int, maximizing: bool, k: int)
    requires
        0 <= k < 9,
        g.len() == 9,
    ensures
        best_upto(g, depth, maximizing, k + 1) == if g[k] == Cell::Empty {
            let s = child_score(g, depth, maximizing, k);
            let prev = best_upto(g, depth, maximizing, k);
            if maximizing {
                if s > prev { s } else { prev }
            } else {
                if s < prev { s } else { prev }
            }
        } else {
            best_upto(g, depth, maximizing, k)
        },
{
}

/// The value for `X` of playing the cell at index `k` of `g`: the minimax
/// value of the position after, with `O` to move, searched from depth 0.
pub open spec fn move_score(g: Seq<Cell>, k: int) -> int {
    score(g.update(k, Cell::X), 0, false)
}

/// The cell at index `k` is the move chosen for `X`: it is empty, no empty
/// cell has a greater value, and every empty cell before it in row-major
/// order has a smaller one.
pub open spec fn is_best_move(g: Seq<Cell>, k: int) -> bool {
    &&& 0 <= k < 9
    &&& g[k] == Cell::Empty
    &&& forall|j: int| 0 <= j < 9 && g[j] == Cell::Empty ==> #[trigger] move_score(g, j) <= move_score(g, k)
    &&& forall|j: int| 0 <= j < k && g[j] == Cell::Empty ==> #[trigger] move_score(g, j) < move_score(g, k)
}

/// The minimax value at depth `depth` lies within `10 - depth` of 0, and
/// within `9 - depth` on the side of a player who holds no line yet.
pub proof fn lemma_score_bounds(g: Seq<Cell>, depth: int, maximizing: bool)
    requires
        g.len() == 9,
        0 <= depth,
        depth + count_of(g, Cell::Empty) <= 9,
    ensures
        depth - 10 <= score(g, depth, maximizing) <= 10 - depth,
        !wins(g, Cell::X) ==> score(g, depth, maximizing) <= 9 - depth,
        !wins(g, Cell::O) ==> depth - 9 <= score(g, depth, maximizing),
    decreases count_of(g, Cell::Empty), 1int, 0int,
{
    lemma_count_upto_update(g, 0, Cell::Empty, Cell::Empty, 9);
    if !wins(g, Cell::X) && !wins(g, Cell::O) && !full(g) {
        reveal(full);
        assert(exists|k: int| 0 <= k < 9 && g[k] == Cell::Empty);
        let k = choose|k: int| 0 <= k < 9 && g[k] == Cell::Empty;
        lemma_best_bounds(g, depth, maximizing, 9, k);
    }
}

/// The best child value over the first `n` cells is the starting value or a
/// child's value, and the latter where one of those cells (`k`) is empty.
proof fn lemma_best_bounds(g: Seq<Cell>, depth: int, maximizing: bool, n: int, k: int)
    requires
        g.len() == 9,
        0 <= depth,
        depth + count_of(g, Cell::Empty) <= 9,
        0 <= n <= 9,
    ensures
        best_upto(g, depth, maximizing, n) == best_upto(g, depth, maximizing, 0) || (depth - 9
            <= best_upto(g, depth, maximizing, n) <= 9 - depth),
        0 <= k < n && g[k] == Cell::Empty ==> depth - 9 <= best_upto(g, depth, maximizing, n)
            <= 9 - depth,
    decreases count_of(g, Cell::Empty), 0int, n,
{
    if n > 0 {
        lemma_best_bounds(g, depth, maximizing, n - 1, k);
        lemma_best_step(g, depth, maximizing, n - 1);
        if g[n - 1] == Cell::Empty {
            lemma_count_after_fill(g, n - 1, mark_of(maximizing));
            lemma_score_bounds(g.update(n - 1, mark_of(maximizing)), depth + 1, !maximizing);
        }
    }
}

/// Where `X` can complete a line by playing the cell at index `k`, the move
/// chosen for `X` completes a line too, and it is the first such cell in
/// row-major order.
pub proof fn immediate_win_preferred(g: Seq<Cell>, k: int, chosen: int)
    requires
        g.len() == 9,
        0 <= k < 9,
        g[k] == Cell::Empty,
        wins(g.update(k, Cell::X), Cell::X),
        is_best_move(g, chosen),
    ensures
        wins(g.update(chosen, Cell::X), Cell::X),
        chosen <= k,
{
    lemma_count_after_fill(g, chosen, Cell::X);
    lemma_count_upto_update(g.update(chosen, Cell::X), 0, Cell::Empty, Cell::Empty, 9);
    lemma_score_bounds(g.update(chosen, Cell::X), 0, false);
    assert(move_score(g, k) == 10);
    assert(move_score(g, k) <= move_score(g, chosen));
}

/// The move chosen for `X` is determined by the board: no two cells both
/// meet the description of the chosen move.
pub proof fn best_move_unique(g: Seq<Cell>, a: int, b: int)
    requires
        is_best_move(g, a),
        is_best_move(g, b),
    ensures
        a == b,
{
    if a < b {
        assert(move_score(g, a) < move_score(g, b));
    } else if b < a {
        assert(move_score(g, b) < move_score(g, a));
    }
}

impl Game {
    /// Writes `v` into the cell at row-major index `k`, whatever it held.
    fn set_cell(&mut self, k: usize, v: Cell)
        requires
            k < 9,
        ensures
            cells(final(self).board) == cells(old(self).board).update(k as int, v),
            final(self).current_player == old(self).current_player,
    {
        self.board[k / 3][k % 3] = v;
        assert(cells(self.board) =~= cells(old(self).board).update(k as int, v));
    }

    /// The minimax value of the current board at search depth `depth`, `X`
    /// to move when `is_maximizing` holds. Every trial placement is undone
    /// before the next one, so the board comes back as it was.
    pub fn minimax(&mut self, depth: usize, is_maximizing: bool) -> (r: i32)
        requires
            depth + count_of(cells(old(self).board), Cell::Empty) <= 9,
        ensures
            r == score(cells(old(self).board), depth as int, is_maximizing),
            cells(final(self).board) == cells(old(self).board),
            final(self).current_player == old(self).current_player,
        decreases count_of(cells(old(self).board), Cell::Empty),
    {
        proof {
            lemma_count_upto_update(cells(self.board), 0, Cell::Empty, Cell::Empty, 9);
        }
        if self.is_winner(&Cell::X) {
            return 10 - depth as i32;
        }
        if self.is_winner(&Cell::O) {
            return depth as i32 - 10;
        }
        if self.is_draw() {
            return 0;
        }
        let ghost g = cells(self.board);
        let mark = if is_maximizing {
            Cell::X
        } else {
            Cell::O
        };
        let mut best_score: i32 = if is_maximizing {
            i32::MIN
        } else {
            i32::MAX
        };
        let mut k: usize = 0;
        while k < 9
            invariant
                k <= 9,
                g == cells(self.board),
                g == cells(old(self).board),
                self.current_player == old(self).current_player,
                mark == mark_of(is_maximizing),
                depth + count_of(g, Cell::Empty) <= 9,
                best_score == best_upto(g, depth as int, is_maximizing, k as int),
            decreases 9 - k,
        {
            if self.board[k / 3][k % 3] == Cell::Empty {
                proof {
                    lemma_count_after_fill(g, k as int, mark);
                }
                self.set_cell(k, mark);
                let score = self.minimax(depth + 1, !is_maximizing);
                self.set_cell(k, Cell::Empty);
                assert(g.update(k as int, mark).update(k as int, Cell::Empty) =~= g);
                if is_maximizing {
                    if score > best_score {
                        best_score = score;
                    }
                } else {
                    if score < best_score {
                        best_score = score;
                    }
                }
            }
            proof {
                lemma_best_step(g, depth as int, is_maximizing, k as int);
            }
            k += 1;
        }
        best_score
    }

    /// The move for `X` with the greatest minimax value; among equal values
    /// the first empty cell in row-major order. The board comes back as it
    /// was. On a full board there is no move, and the answer is `(0, 0)`.
    pub fn get_best_move(&mut self) -> (m: (usize, usize))
        ensures
            cells(final(self).board) == cells(old(self).board),
            final(self).current_player == old(self).current_player,
            full(cells(old(self).board)) ==> m == (0usize, 0usize),
            !full(cells(old(self).board)) ==> m.0 < 3 && m.1 < 3 && is_best_move(
                cells(old(self).board),
                3 * m.0 + m.1,
            ),
    {
        let ghost g = cells(self.board);
        let mut best_score: i32 = i32::MIN;
        let mut best_move: (usize, usize) = (0, 0);
        let mut k: usize = 0;
        while k < 9
            invariant
                k <= 9,
                g == cells(self.board),
                g == cells(old(self).board),
                self.current_player == old(self).current_player,
                best_score == i32::MIN ==> best_move == (0usize, 0usize) && forall|j: int|
                    0 <= j < k ==> #[trigger] g[j] != Cell::Empty,
                best_score > i32::MIN ==> {
                    let b = 3 * best_move.0 + best_move.1;
                    &&& best_move.0 < 3 && best_move.1 < 3
                    &&& b < k
                    &&& g[b] == Cell::Empty
                    &&& best_score == move_score(g, b)
                    &&& forall|j: int| 0 <= j < k && g[j] == Cell::Empty ==> #[trigger] move_score(g, j) <= best_score
                    &&& forall|j: int| 0 <= j < b && g[j] == Cell::Empty ==> #[trigger] move_score(g, j) < best_score
                },
            decreases 9 - k,
        {
            if self.board[k / 3][k % 3] == Cell::Empty {
                proof {
                    lemma_count_after_fill(g, k as int, Cell::X);
                    lemma_count_upto_update(g.update(k as int, Cell::X), 0, Cell::Empty, Cell::Empty, 9);
                    lemma_score_bounds(g.update(k as int, Cell::X), 0, false);
                }
                self.set_cell(k, Cell::X);
                let score = self.minimax(0, false);
                self.set_cell(k, Cell::Empty);
                assert(g.update(k as int, Cell::X).update(k as int, Cell::Empty) =~= g);
                if score > best_score {
                    best_score = score;
                    best_move = (k / 3, k % 3);
                }
            }
            k += 1;
        }
        proof {
            reveal(full);
        }
        best_move
    }
}

} // verus!