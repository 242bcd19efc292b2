use vstd::prelude::*;

verus! {

/// Length of a side of the square grid.
pub const BOARD_SIZE: usize = 3;

/// The state of one cell: empty, or holding the mark of one of the two sides.
#[derive(Clone, Copy, PartialEq, Eq, Structural, Debug)]
pub enum Cell {
    Empty,
    X,
    O,
}

/// A board together with the mark of the side to move.
pub struct Game {
    pub board: [[Cell; 3]; 3],
    pub current_player: Cell,
}

/// The board read in row-major order: cell `(r, c)` stands at index `3 * r + c`.
pub open spec fn cells(b: [[Cell; 3]; 3]) -> Seq<Cell> {
    Seq::new(9, |k: int| b[k / 3][k % 3])
}

/// The cell at row `r` and column `c` of a row-major sequence of cells.
pub open spec fn at(g: Seq<Cell>, r: int, c: int) -> Cell {
    g[3 * r + c]
}

/// Row `r` holds `m` in each of its three cells.
pub open spec fn row_full(g: Seq<Cell>, r: int, m: Cell) -> bool {
    forall|c: int| 0 <= c < 3 ==> #[trigger] at(g, r, c) == m
}

/// Column `c` holds `m` in each of its three cells.
pub open spec fn column_full(g: Seq<Cell>, c: int, m: Cell) -> bool {
    forall|r: int| 0 <= r < 3 ==> #[trigger] at(g, r, c) == m
}

/// The diagonal from the top left corner holds `m` in each of its cells.
pub open spec fn main_diagonal_full(g: Seq<Cell>, m: Cell) -> bool {
    forall|i: int| 0 <= i < 3 ==> #[trigger] at(g, i, i) == m
}

/// The diagonal from the top right corner holds `m` in each of its cells.
pub open spec fn anti_diagonal_full(g: Seq<Cell>, m: Cell) -> bool {
    forall|r: int, c: int| 0 <= r < 3 && 0 <= c < 3 && r + c == 2 ==> #[trigger] at(g, r, c) == m
}

/// Some row, column or diagonal is held entirely by `m`.
#[verifier::opaque]
pub open spec fn wins(g: Seq<Cell>, m: Cell) -> bool {
    ||| exists|r: int| 0 <= r < 3 && #[trigger] row_full(g, r, m)
    ||| exists|c: int| 0 <= c < 3 && #[trigger] column_full(g, c, m)
    ||| main_diagonal_full(g, m)
    ||| anti_diagonal_full(g, m)
}

/// No cell is empty.
#[verifier::opaque]
pub open spec fn full(g: Seq<Cell>) -> bool {
    forall|k: int| 0 <= k < 9 ==> #[trigger] g[k] != Cell::Empty
}

/// The mark of the other side.
pub open spec fn opponent(m: Cell) -> Cell {
    match m {
        Cell::X => Cell::O,
        Cell::O => Cell::X,
        Cell::Empty => Cell::Empty,
    }
}

/// The board with every cell empty.
pub open spec fn empty_board() -> Seq<Cell> {
    Seq::new(9, |k: int| Cell::Empty)
}

impl Game {
    /// The game as it starts: every cell empty, `X` to move.
    pub fn new() -> (g: Game)
        ensures
            cells(g.board) == empty_board(),
            g.current_player == Cell::X,
    {
        let g = Game { board: [[Cell::Empty; 3]; 3], current_player: Cell::X };
        assert(cells(g.board) =~= empty_board());
        g
    }

    /// Whether `player` holds a whole row, column or diagonal.
    pub fn is_winner(&self, player: &Cell) -> (r: bool)
        ensures
            r == wins(cells(self.board), *player),
    {
        reveal(wins);
        let ghost g = cells(self.board);
        let m = *player;
        let mut i: usize = 0;
        while i < BOARD_SIZE
            invariant
                i <= 3,
                g == cells(self.board),
                m == *player,
                forall|r: int| 0 <= r < i ==> !row_full(g, r, m) && !column_full(g, r, m),
            decreases 3 - i,
        {
            proof {
                reveal(wins);
            }
            if self.board[i][0] == m && self.board[i][1] == m && self.board[i][2] == m {
                assert(row_full(g, i as int, m));
                return true;
            }
            if self.board[0][i] == m && self.board[1][i] == m && self.board[2][i] == m {
                assert(column_full(g, i as int, m));
                return true;
            }
            assert(!(at(g, i as int, 0) == m && at(g, i as int, 1) == m && at(g, i as int, 2) == m));
            assert(!(at(g, 0, i as int) == m && at(g, 1, i as int) == m && at(g, 2, i as int) == m));
            i += 1;
        }
        if self.board[0][0] == m && self.board[1][1] == m && self.board[2][2] == m {
            assert(main_diagonal_full(g, m));
            return true;
        }
        if self.board[0][2] == m && self.board[1][1] == m && self.board[2][0] == m {
            assert(anti_diagonal_full(g, m));
            return true;
        }
        assert(!(at(g, 0, 0) == m && at(g, 1, 1) == m && at(g, 2, 2) == m));
        assert(!(at(g, 0, 2) == m && at(g, 1, 1) == m && at(g, 2, 0) == m));
        false
    }

    /// Whether every cell is occupied. A board on which one side has won may
    /// be full too: callers ask `is_winner` first.
    pub fn is_draw(&self) -> (r: bool)
        ensures
            r == full(cells(self.board)),
    {
        reveal(full);
        let ghost g = cells(self.board);
        let mut k: usize = 0;
        while k < 9
            invariant
                k <= 9,
                g == cells(self.board),
                forall|j: int| 0 <= j < k ==> #[trigger] g[j] != Cell::Empty,
            decreases 9 - k,
        {
            proof {
                reveal(full);
            }
            if self.board[k / 3][k % 3] == Cell::Empty {
                assert(g[k as int] == Cell::Empty);
                return false;
            }
            k += 1;
        }
        true
    }

    /// Hands the turn to the other side.
    pub fn switch_player(&mut self)
        requires
            old(self).current_player != Cell::Empty,
        ensures
            final(self).current_player == opponent(old(self).current_player),
            final(self).board == old(self).board,
    {
        self.current_player = match self.current_player {
            Cell::X => Cell::O,
            _ => Cell::X,
        };
    }

    /// Writes the mark of the side to move into cell `(row, col)` if it is
    /// empty; reports whether it did.
    pub fn make_move(&mut self, row: usize, col: usize) -> (placed: bool)
        requires
            row < 3,
            col < 3,
        ensures
            placed == (cells(old(self).board)[3 * row + col] == Cell::Empty),
            placed ==> cells(final(self).board) == cells(old(self).board).update(
                3 * row + col,
                old(self).current_player,
            ),
            !placed ==> final(self).board == old(self).board,
            final(self).current_player == old(self).current_player,
    {
        if self.board[row][col] == Cell::Empty {
            self.board[row][col] = self.current_player;
            assert(cells(self.board) =~= cells(old(self).board).update(3 * row + col, old(self).current_player));
            true
        } else {
            false
        }
    }
}

/// A line of empty cells is no win: on the empty board neither mark has won.
pub proof fn empty_board_has_no_winner(m: Cell)
    requires
        m != Cell::Empty,
    ensures
        !wins(empty_board(), m),
{
    reveal(wins);
    let g = empty_board();
    assert forall|r: int| 0 <= r < 3 implies !#[trigger] row_full(g, r, m) by {
        assert(at(g, r, 0) != m);
    }
    assert forall|c: int| 0 <= c < 3 implies !#[trigger] column_full(g, c, m) by {
        assert(at(g, 0, c) != m);
    }
    assert(at(g, 0, 0) != m);
    assert(at(g, 0, 2) != m);
    assert(!main_diagonal_full(empty_board(), m));
    assert(!anti_diagonal_full(empty_board(), m));
}

/// 1 where cell `c` holds `m`, else 0.
pub open spec fn holds(c: Cell, m: Cell) -> int {
    if c == m {
        1
    } else {
        0
    }
}

/// How many of the first `n` cells hold `m`.
pub open spec fn count_upto(g: Seq<Cell>, m: Cell, n: int) -> int
    decreases n,
{
    if n <= 0 {
        0
    } else {
        count_upto(g, m, n - 1) + holds(g[n - 1], m)
    }
}

/// How many of the nine cells hold `m`.
pub open spec fn count_of(g: Seq<Cell>, m: Cell) -> int {
    count_upto(g, m, 9)
}

/// Writing `v` over the cell at index `k` changes the count of the first
/// `n` cells only where `k < n`, and then by what left and what came.
pub proof fn lemma_count_upto_update(g: Seq<Cell>, k: int, v: Cell, m: Cell, n: int)
    requires
        0 <= k < g.len(),
        0 <= n <= g.len(),
    ensures
        count_upto(g.update(k, v), m, n) == count_upto(g, m, n) + if k < n {
            holds(v, m) - holds(g[k], m)
        } else {
            0
        },
        0 <= count_upto(g, m, n) <= n,
        0 <= count_upto(g.update(k, v), m, n) <= n,
    decreases n,
{
    if n > 0 {
        lemma_count_upto_update(g, k, v, m, n - 1);
    }
}

/// Filling an empty cell with `m` leaves one empty cell fewer and one more
/// cell holding `m`; the count of the other mark is unchanged.
pub proof fn lemma_count_after_fill(g: Seq<Cell>, k: int, m: Cell)
    requires
        g.len() == 9,
        0 <= k < 9,
        g[k] == Cell::Empty,
        m != Cell::Empty,
    ensures
        count_of(g.update(k, m), Cell::Empty) == count_of(g, Cell::Empty) - 1,
        count_of(g.update(k, m), m) == count_of(g, m) + 1,
        count_of(g.update(k, m), opponent(m)) == count_of(g, opponent(m)),
        count_of(g, Cell::Empty) >= 1,
{
    lemma_count_upto_update(g, k, m, Cell::Empty, 9);
    lemma_count_upto_update(g, k, m, m, 9);
    lemma_count_upto_update(g, k, m, opponent(m), 9);
}

} // verus!
