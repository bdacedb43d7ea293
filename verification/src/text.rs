//! The lines of text that a game shows: the board, the prompts and the result.

use vstd::prelude::*;
use vstd::string::StringExecFns;
use crate::board::{Board, Cell, Side};
use crate::score::Outcome;

verus! {

/// The character that shows a cell.
pub open spec fn cell_char(cell: Cell) -> char {
    match cell {
        Cell::Empty => '.',
        Cell::Black => 'B',
        Cell::White => 'W',
    }
}

/// The letter that names a side.
pub open spec fn side_char(side: Side) -> char {
    match side {
        Side::Black => 'B',
        Side::White => 'W',
    }
}

/// The letter that names a row or a column.
pub open spec fn letter(i: int) -> char {
    if i == 0 {
        'a'
    } else if i == 1 {
        'b'
    } else if i == 2 {
        'c'
    } else if i == 3 {
        'd'
    } else if i == 4 {
        'e'
    } else if i == 5 {
        'f'
    } else if i == 6 {
        'g'
    } else {
        'h'
    }
}

/// The decimal digit for a number below ten.
pub open spec fn digit(d: int) -> char {
    if d == 0 {
        '0'
    } else if d == 1 {
        '1'
    } else if d == 2 {
        '2'
    } else if d == 3 {
        '3'
    } else if d == 4 {
        '4'
    } else if d == 5 {
        '5'
    } else if d == 6 {
        '6'
    } else if d == 7 {
        '7'
    } else if d == 8 {
        '8'
    } else {
        '9'
    }
}

/// A number in decimal, without leading zeros.
pub open spec fn decimal(n: nat) -> Seq<char>
    decreases n,
{
    if n < 10 {
        seq![digit(n as int)]
    } else {
        decimal(n / 10).push(digit((n % 10) as int))
    }
}

/// The first `n` cells of row `r`, one character each.
pub open spec fn cells_text(b: Board, r: int, n: nat) -> Seq<char>
    decreases n,
{
    if n == 0 {
        Seq::empty()
    } else {
        cells_text(b, r, (n - 1) as nat).push(cell_char(b.at(r, n - 1)))
    }
}

/// One row of the board: its letter, a space, its eight cells and a line feed.
pub open spec fn row_text(b: Board, r: int) -> Seq<char> {
    seq![letter(r), ' '] + cells_text(b, r, 8) + seq!['\n']
}

/// The first `n` rows of the board.
pub open spec fn rows_text(b: Board, n: nat) -> Seq<char>
    decreases n,
{
    if n == 0 {
        Seq::empty()
    } else {
        rows_text(b, (n - 1) as nat) + row_text(b, n - 1)
    }
}

/// The whole board: the column letters, then the eight rows.
pub open spec fn board_text(b: Board) -> Seq<char> {
    "  abcdefgh\n"@ + rows_text(b, 8)
}

/// The notice that a side was passed over.
pub open spec fn skip_text(side: Side) -> Seq<char> {
    seq![side_char(side)] + " player has no valid move."@
}

/// The request for a move.
pub open spec fn prompt_text(side: Side) -> Seq<char> {
    "Enter move for colour "@ + seq![side_char(side)] + " (RowCol): "@
}

/// The line that tells how the game ended.
pub open spec fn report_text(o: Outcome) -> Seq<char> {
    match o {
        Outcome::Win(Side::White, n) => "White wins by "@ + decimal(n as nat) + " points!"@,
        Outcome::Win(Side::Black, n) => "Black wins by "@ + decimal(n as nat) + " points!"@,
        Outcome::Draw => "Draw!"@,
    }
}

fn cell_str(cell: Cell) -> (s: &'static str)
    ensures
        s@ == seq![cell_char(cell)],
{
    proof {
        reveal_strlit(".");
        reveal_strlit("B");
        reveal_strlit("W");
    }
    let s = match cell {
        Cell::Empty => ".",
        Cell::Black => "B",
        Cell::White => "W",
    };
    assert(s@ =~= seq![cell_char(cell)]);
    s
}

fn side_str(side: Side) -> (s: &'static str)
    ensures
        s@ == seq![side_char(side)],
{
    proof {
        reveal_strlit("B");
        reveal_strlit("W");
    }
    let s = match side {
        Side::Black => "B",
        Side::White => "W",
    };
    assert(s@ =~= seq![side_char(side)]);
    s
}

fn letter_str(i: usize) -> (s: &'static str)
    requires
        i < 8,
    ensures
        s@ == seq![letter(i as int)],
{
    proof {
        reveal_strlit("a");
        reveal_strlit("b");
        reveal_strlit("c");
        reveal_strlit("d");
        reveal_strlit("e");
        reveal_strlit("f");
        reveal_strlit("g");
        reveal_strlit("h");
    }
    let s = match i {
        0 => "a",
        1 => "b",
        2 => "c",
        3 => "d",
        4 => "e",
        5 => "f",
        6 => "g",
        _ => "h",
    };
    assert(s@ =~= seq![letter(i as int)]);
    s
}

fn digit_str(d: usize) -> (s: &'static str)
    requires
        d < 10,
    ensures
        s@ == seq![digit(d as int)],
{
    proof {
        reveal_strlit("0");
        reveal_strlit("1");
        reveal_strlit("2");
        reveal_strlit("3");
        reveal_strlit("4");
        reveal_strlit("5");
        reveal_strlit("6");
        reveal_strlit("7");
        reveal_strlit("8");
        reveal_strlit("9");
    }
    let s = match d {
        0 => "0",
        1 => "1",
        2 => "2",
        3 => "3",
        4 => "4",
        5 => "5",
        6 => "6",
        7 => "7",
        8 => "8",
        _ => "9",
    };
    assert(s@ =~= seq![digit(d as int)]);
    s
}

/// Writes a number in decimal.
pub fn decimal_string(n: usize) -> (s: String)
    ensures
        s@ == decimal(n as nat),
    decreases n,
{
    if n < 10 {
        String::from_str(digit_str(n))
    } else {
        let mut s = decimal_string(n / 10);
        s.append(digit_str(n % 10));
        assert(s@ =~= decimal(n as nat));
        s
    }
}

/// Draws one row of the board.
pub fn render_row(board: &Board, r: usize) -> (s: String)
    requires
        r < 8,
    ensures
        s@ == row_text(*board, r as int),
{
    proof {
        reveal_strlit(" ");
        reveal_strlit("\n");
    }
    let mut s = String::from_str(letter_str(r));
    s.append(" ");
    assert(s@ =~= seq![letter(r as int), ' '] + cells_text(*board, r as int, 0));
    let mut c: usize = 0;
    while c < 8
        invariant
            r < 8,
            c <= 8,
            s@ == seq![letter(r as int), ' '] + cells_text(*board, r as int, c as nat),
        decreases 8 - c,
    {
        s.append(cell_str(board.get(r, c)));
        c = c + 1;
        assert(s@ =~= seq![letter(r as int), ' '] + cells_text(*board, r as int, c as nat));
    }
    s.append("\n");
    assert(s@ =~= row_text(*board, r as int));
    s
}

/// Draws the board: a line of column letters, then one line for each row.
pub fn render_board(board: &Board) -> (s: String)
    ensures
        s@ == board_text(*board),
{
    let mut s = String::from_str("  abcdefgh\n");
    assert(s@ =~= "  abcdefgh\n"@ + rows_text(*board, 0));
    let mut r: usize = 0;
    while r < 8
        invariant
            r <= 8,
            s@ == "  abcdefgh\n"@ + rows_text(*board, r as nat),
        decreases 8 - r,
    {
        let row = render_row(board, r);
        s.append(row.as_str());
        r = r + 1;
        assert(s@ =~= "  abcdefgh\n"@ + rows_text(*board, r as nat));
    }
    s
}

/// The notice that `side` has no legal move and is passed over.
pub fn skip_notice(side: Side) -> (s: String)
    ensures
        s@ == skip_text(side),
{
    let mut s = String::from_str(side_str(side));
    s.append(" player has no valid move.");
    s
}

/// The request for a move of `side`.
pub fn prompt(side: Side) -> (s: String)
    ensures
        s@ == prompt_text(side),
{
    let mut s = String::from_str("Enter move for colour ");
    s.append(side_str(side));
    s.append(" (RowCol): ");
    s
}

/// The answer to a line that names no legal move.
pub fn invalid_notice() -> (s: String)
    ensures
        s@ == "Invalid move. Try again."@,
{
    String::from_str("Invalid move. Try again.")
}

/// The line that tells how the game ended: the winner and the margin, or a draw.
pub fn report(o: Outcome) -> (s: String)
    ensures
        s@ == report_text(o),
{
    match o {
        Outcome::Draw => String::from_str("Draw!"),
        Outcome::Win(side, n) => {
            let mut s = match side {
                Side::White => String::from_str("White wins by "),
                Side::Black => String::from_str("Black wins by "),
            };
            let number = decimal_string(n);
            s.append(number.as_str());
            s.append(" points!");
            s
        },
    }
}

} // verus!
