//! Reading a move from a line of text.

use vstd::prelude::*;
use vstd::string::StrSliceExecFns;

verus! {

/// The coordinate, on both axes, that stands for a line that names no square.
pub const OUT_OF_RANGE: usize = 99;

/// The position of a letter counted from `'a'`.
pub open spec fn letter_index(ch: char) -> int {
    ch as int - 'a' as int
}

/// Whether the text is two letters, each between `'a'` and `'h'`.
pub open spec fn names_square(text: Seq<char>) -> bool {
    &&& text.len() == 2
    &&& 0 <= letter_index(text[0]) < 8
    &&& 0 <= letter_index(text[1]) < 8
}

/// The square that a line of text names: row letter, then column letter. Any
/// other text gives the out-of-range pair.
pub open spec fn parsed(text: Seq<char>) -> (int, int) {
    if names_square(text) {
        (letter_index(text[0]), letter_index(text[1]))
    } else {
        (99, 99)
    }
}

/// Turns a line of text into a pair of coordinates, or into the out-of-range
/// pair where the line is not exactly two letters from `'a'` to `'h'`.
pub fn parse_input(input: &String) -> (at: (usize, usize))
    ensures
        (at.0 as int, at.1 as int) == parsed(input@),
        names_square(input@) <==> at.0 < 8 && at.1 < 8,
{
    let text = input.as_str();
    if text.unicode_len() != 2 {
        return (OUT_OF_RANGE, OUT_OF_RANGE);
    }
    let row: u32 = text.get_char(0) as u32;
    let col: u32 = text.get_char(1) as u32;
    if row < 97 || row >= 105 || col < 97 || col >= 105 {
        return (OUT_OF_RANGE, OUT_OF_RANGE);
    }
    ((row - 97) as usize, (col - 97) as usize)
}

} // verus!
