use vstd::prelude::*;
use crate::board::{Cell, Game, cells, full};

verus! {

/// The coordinates `(row, column)` of the empty cells among the first `n`
/// cells of `g`, in row-major order.
pub open spec fn empty_upto(g: Seq<Cell>, n: int) -> Seq<(usize, usize)>
    decreases n,
{
    if n <= 0 {
        Seq::empty()
    } else if g[n - 1] == Cell::Empty {
        empty_upto(g, n - 1).push((((n - 1) / 3) as usize, ((n - 1) % 3) as usize))
    } else {
        empty_upto(g, n - 1)
    }
}

/// The coordinates of all empty cells of `g`, in row-major order.
pub open spec fn empty_coords(g: Seq<Cell>) -> Seq<(usize, usize)> {
    empty_upto(g, 9)
}

/// The first `n` cells hold an empty one exactly where the list of their
/// empty coordinates is not empty.
proof fn lemma_empty_upto_len(g: Seq<Cell>, n: int)
    requires
        0 <= n <= 9,
    ensures
        empty_upto(g, n).len() == 0 <==> forall|j: int| 0 <= j < n ==> #[trigger] g[j] != Cell::Empty,
    decreases n,
{
    if n > 0 {
        lemma_empty_upto_len(g, n - 1);
        if empty_upto(g, n).len() == 0 {
            assert forall|j: int| 0 <= j < n implies #[trigger] g[j] != Cell::Empty by {
                if j < n - 1 {
                    assert(g[j] != Cell::Empty);
                }
            }
        }
    }
}

/// The generator of rand that each thread seeds for itself; opaque here.
#[verifier::external_type_specification]
#[verifier::external_body]
pub struct ExThreadRng(rand::rngs::ThreadRng);

/// Relies on rand::thread_rng: it hands back this thread's generator, and
/// nothing is known of its state.
pub assume_specification[ rand::thread_rng ]() -> rand::rngs::ThreadRng;

/// Relies on rand::Rng::gen_range over `0..n`: for `n > 0`, a number below `n`
/// (gen_range panics on an empty range).
#[verifier::external_body]
fn random_below(rng: &mut rand::rngs::ThreadRng, n: usize) -> (r: usize)
    requires
        n > 0,
    ensures
        r < n,
{
    rand::Rng::gen_range(rng, 0..n)
}

impl Game {
    /// The coordinates of the empty cells, in row-major order.
    pub fn empty_cells(&self) -> (r: Vec<(usize, usize)>)
        ensures
            r@ == empty_coords(cells(self.board)),
    {
        let ghost g = cells(self.board);
        let mut r: Vec<(usize, usize)> = Vec::new();
        let mut k: usize = 0;
        while k < 9
            invariant
                k <= 9,
                g == cells(self.board),
                r@ == empty_upto(g, k as int),
            decreases 9 - k,
        {
            if self.board[k / 3][k % 3] == Cell::Empty {
                r.push((k / 3, k % 3));
            }
            k += 1;
        }
        r
    }

    /// An empty cell drawn at random, each with the same chance; `None` when
    /// the board is full.
    pub fn get_random_move(&self) -> (r: Option<(usize, usize)>)
        ensures
            r is None <==> full(cells(self.board)),
            r matches Some(m) ==> empty_coords(cells(self.board)).contains(m),
    {
        let empty = self.empty_cells();
        proof {
            lemma_empty_upto_len(cells(self.board), 9);
            reveal(full);
        }
        if empty.len() == 0 {
            return None;
        }
        let mut rng = rand::thread_rng();
        let i = random_below(&mut rng, empty.len());
        Some(empty[i])
    }
}

} // verus!
