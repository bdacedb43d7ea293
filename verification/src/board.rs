//! Cells, sides and the 8x8 board.

use vstd::prelude::*;

verus! {

/// What a single square of the board holds.
#[derive(Clone, Copy, Debug, PartialEq, Eq, Structural)]
pub enum Cell {
    Empty,
    Black,
    White,
}

/// One of the two players.
#[derive(Clone, Copy, Debug, PartialEq, Eq, Structural)]
pub enum Side {
    Black,
    White,
}

impl Side {
    /// The other player.
    pub open spec fn other(self) -> Side {
        match self {
            Side::Black => Side::White,
            Side::White => Side::Black,
        }
    }

    /// The cell state of a square occupied by this player.
    pub open spec fn piece(self) -> Cell {
        match self {
            Side::Black => Cell::Black,
            Side::White => Cell::White,
        }
    }

    /// The other player.
    pub fn opponent(self) -> (s: Side)
        ensures
            s == self.other(),
            s != self,
            s.other() == self,
    {
        match self {
            Side::Black => Side::White,
            Side::White => Side::Black,
        }
    }

    /// The cell state of a square occupied by this player.
    pub fn cell(self) -> (c: Cell)
        ensures
            c == self.piece(),
            c != Cell::Empty,
    {
        match self {
            Side::Black => Cell::Black,
            Side::White => Cell::White,
        }
    }
}

/// Whether `(r, c)` names a square of the board.
pub open spec fn on_board(r: int, c: int) -> bool {
    0 <= r < 8 && 0 <= c < 8
}

/// Row-major position of the square `(r, c)`.
pub open spec fn square(r: int, c: int) -> int {
    r * 8 + c
}

/// The board: 64 cells in row-major order.
#[derive(Clone, Copy, Debug, PartialEq, Eq)]
pub struct Board {
    cells: [Cell; 64],
}

impl View for Board {
    type V = Seq<Cell>;

    closed spec fn view(&self) -> Seq<Cell> {
        self.cells@
    }
}

/// Every board has 64 cells.
pub broadcast proof fn lemma_board_len(b: Board)
    ensures
        #[trigger] b@.len() == 64,
{
}

impl Board {
    /// The cell at row `r`, column `c`.
    pub open spec fn at(self, r: int, c: int) -> Cell {
        self@[square(r, c)]
    }

    /// A board with no pieces on it.
    pub fn empty() -> (b: Board)
        ensures
            forall|i: int| 0 <= i < 64 ==> b@[i] == Cell::Empty,
    {
        Board { cells: [Cell::Empty; 64] }
    }

    /// Reads the cell at row `r`, column `c`.
    pub fn get(&self, r: usize, c: usize) -> (cell: Cell)
        requires
            r < 8,
            c < 8,
        ensures
            cell == self.at(r as int, c as int),
    {
        self.cells[r * 8 + c]
    }

    /// Writes `cell` at row `r`, column `c` and leaves every other square as it was.
    pub fn set(&mut self, r: usize, c: usize, cell: Cell)
        requires
            r < 8,
            c < 8,
        ensures
            final(self)@ == old(self)@.update(square(r as int, c as int), cell),
    {
        self.cells[r * 8 + c] = cell;
    }
}

/// The starting position: two pieces of each colour around the centre.
pub open spec fn initial_cell(r: int, c: int) -> Cell {
    if (r == 3 && c == 3) || (r == 4 && c == 4) {
        Cell::White
    } else if (r == 3 && c == 4) || (r == 4 && c == 3) {
        Cell::Black
    } else {
        Cell::Empty
    }
}

/// Builds the starting position.
pub fn set_up_board() -> (b: Board)
    ensures
        forall|r: int, c: int| on_board(r, c) ==> #[trigger] b.at(r, c) == initial_cell(r, c),
{
    let mut b = Board::empty();
    b.set(3, 3, Cell::White);
    b.set(3, 4, Cell::Black);
    b.set(4, 3, Cell::Black);
    b.set(4, 4, Cell::White);
    b
}

} // verus!
