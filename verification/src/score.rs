//! Piece counts and the result of a finished game.

use vstd::prelude::*;
use crate::board::{Board, Cell, Side};

verus! {

broadcast use crate::board::lemma_board_len;

/// How many of the first `n` cells equal `what`.
pub open spec fn count_prefix(cells: Seq<Cell>, what: Cell, n: nat) -> nat
    decreases n,
{
    if n == 0 {
        0
    } else {
        count_prefix(cells, what, (n - 1) as nat) + if cells[n - 1] == what {
            1nat
        } else {
            0nat
        }
    }
}

/// How many cells of the board equal `what`.
pub open spec fn count(b: Board, what: Cell) -> nat {
    count_prefix(b@, what, 64)
}

/// How many squares of the board hold a piece.
pub open spec fn occupied(b: Board) -> nat {
    count(b, Cell::Black) + count(b, Cell::White)
}

/// Each of the first `n` cells is of exactly one of the three kinds.
pub proof fn lemma_count_partition(cells: Seq<Cell>, n: nat)
    ensures
        count_prefix(cells, Cell::Empty, n) + count_prefix(cells, Cell::Black, n) + count_prefix(
            cells,
            Cell::White,
            n,
        ) == n,
    decreases n,
{
    if n > 0 {
        lemma_count_partition(cells, (n - 1) as nat);
    }
}

/// The result of a finished game.
#[derive(Clone, Copy, Debug, PartialEq, Eq, Structural)]
pub enum Outcome {
    /// The side with more pieces, and by how many.
    Win(Side, usize),
    Draw,
}

/// The result that a pair of piece counts stands for.
pub open spec fn outcome_of(black: nat, white: nat) -> Outcome {
    if white > black {
        Outcome::Win(Side::White, (white - black) as usize)
    } else if black > white {
        Outcome::Win(Side::Black, (black - white) as usize)
    } else {
        Outcome::Draw
    }
}

/// Counts the cells of the board that equal `what`.
pub fn count_cells(board: &Board, what: Cell) -> (n: usize)
    ensures
        n == count(*board, what),
        n <= 64,
{
    let mut n: usize = 0;
    let mut i: usize = 0;
    while i < 64
        invariant
            i <= 64,
            n <= i,
            n == count_prefix(board@, what, i as nat),
        decreases 64 - i,
    {
        if board.get(i / 8, i % 8) == what {
            n = n + 1;
        }
        i = i + 1;
    }
    n
}

/// Counts the pieces of each side: Black first, White second.
pub fn score(board: &Board) -> (points: (usize, usize))
    ensures
        points.0 == count(*board, Cell::Black),
        points.1 == count(*board, Cell::White),
        points.0 + points.1 <= 64,
{
    proof {
        lemma_count_partition(board@, 64);
    }
    (count_cells(board, Cell::Black), count_cells(board, Cell::White))
}

/// Names the winner and the margin, or a draw where both sides hold equally many
/// pieces.
pub fn outcome(board: &Board) -> (o: Outcome)
    ensures
        o == outcome_of(count(*board, Cell::Black), count(*board, Cell::White)),
{
    let (black, white) = score(board);
    if white > black {
        Outcome::Win(Side::White, white - black)
    } else if black > white {
        Outcome::Win(Side::Black, black - white)
    } else {
        Outcome::Draw
    }
}

} // verus!
