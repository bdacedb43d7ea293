//! What holds of every board, side and move.

use vstd::prelude::*;
use crate::board::{on_board, square, Board, Cell, Side};
use crate::capture::{
    after_move, flip_count, flips_at, flips_prefix, is_flipped, lemma_flipped_was_opponent,
};
use crate::lines::{
    along, captures, captures_dir, dir_col, dir_row, is_direction, is_legal, is_run, legal_moves,
    lemma_along, lemma_run_bound, run_len,
};
use crate::moves::MoveSet;
use crate::score::{count, count_prefix, occupied};
use crate::turn::{action_for, is_stuck, state_after, to_move, Action, State};

verus! {

broadcast use crate::board::lemma_board_len;

/// The index of the unit step `(dr, dc)` among the eight directions.
pub open spec fn direction_index(dr: int, dc: int) -> int {
    if dr == 0 && dc == 1 {
        0
    } else if dr == 1 && dc == 0 {
        1
    } else if dr == 0 && dc == -1 {
        2
    } else if dr == -1 && dc == 0 {
        3
    } else if dr == 1 && dc == 1 {
        4
    } else if dr == 1 && dc == -1 {
        5
    } else if dr == -1 && dc == 1 {
        6
    } else {
        7
    }
}

/// The eight directions are the unit steps to the eight neighbours, each once.
pub proof fn law_eight_directions(dr: int, dc: int, d: int)
    ensures
        0 <= d < 8 ==> is_direction(dir_row(d), dir_col(d)) && direction_index(
            dir_row(d),
            dir_col(d),
        ) == d,
        is_direction(dr, dc) ==> 0 <= direction_index(dr, dc) < 8 && dir_row(
            direction_index(dr, dc),
        ) == dr && dir_col(direction_index(dr, dc)) == dc,
{
}

/// A square is a legal move exactly where it is empty and some unit step towards
/// a neighbour is a capturing line.
pub proof fn law_legal_by_direction(b: Board, side: Side, r: int, c: int)
    ensures
        is_legal(b, side, r, c) <==> on_board(r, c) && b.at(r, c) == Cell::Empty && exists|
            dr: int,
            dc: int,
        |
            is_direction(dr, dc) && #[trigger] captures(b, side, r, c, dr, dc),
{
    if is_legal(b, side, r, c) {
        let d = choose|d: int| 0 <= d < 8 && #[trigger] captures_dir(b, side, r, c, d);
        law_eight_directions(0, 0, d);
        assert(is_direction(dir_row(d), dir_col(d)) && captures(
            b,
            side,
            r,
            c,
            dir_row(d),
            dir_col(d),
        ));
    }
    if on_board(r, c) && b.at(r, c) == Cell::Empty && exists|dr: int, dc: int|
        is_direction(dr, dc) && #[trigger] captures(b, side, r, c, dr, dc) {
        let (dr, dc) = choose|dr: int, dc: int|
            is_direction(dr, dc) && #[trigger] captures(b, side, r, c, dr, dc);
        law_eight_directions(dr, dc, 0);
        assert(captures_dir(b, side, r, c, direction_index(dr, dc)));
    }
}

/// A square further along a line from `(r, c)` is not `(r, c)` itself, so a piece
/// placed there leaves it as it was.
proof fn lemma_line_leaves_origin(
    b: Board,
    placed: Board,
    cell: Cell,
    r: int,
    c: int,
    dr: int,
    dc: int,
    i: int,
)
    requires
        on_board(r, c),
        is_direction(dr, dc),
        placed@ == b@.update(square(r, c), cell),
        i >= 1,
        on_board(along(r, dr, i), along(c, dc, i)),
    ensures
        placed.at(along(r, dr, i), along(c, dc, i)) == b.at(along(r, dr, i), along(c, dc, i)),
{
    lemma_along(r, dr, i);
    lemma_along(c, dc, i);
}

/// A line of a given length captures on the board with the new piece exactly
/// where it captures on the board without it.
proof fn lemma_placement_keeps_run(
    b: Board,
    placed: Board,
    side: Side,
    r: int,
    c: int,
    dr: int,
    dc: int,
    k: int,
)
    requires
        on_board(r, c),
        is_direction(dr, dc),
        placed@ == b@.update(square(r, c), side.piece()),
    ensures
        is_run(placed, side, r, c, dr, dc, k) == is_run(b, side, r, c, dr, dc, k),
{
    let cell = side.piece();
    if is_run(b, side, r, c, dr, dc, k) {
        assert forall|i: int| 1 <= i <= k implies on_board(
            #[trigger] along(r, dr, i),
            along(c, dc, i),
        ) && placed.at(along(r, dr, i), along(c, dc, i)) == side.other().piece() by {
            lemma_line_leaves_origin(b, placed, cell, r, c, dr, dc, i);
        }
        lemma_line_leaves_origin(b, placed, cell, r, c, dr, dc, k + 1);
    }
    if is_run(placed, side, r, c, dr, dc, k) {
        assert forall|i: int| 1 <= i <= k implies on_board(
            #[trigger] along(r, dr, i),
            along(c, dc, i),
        ) && b.at(along(r, dr, i), along(c, dc, i)) == side.other().piece() by {
            lemma_line_leaves_origin(b, placed, cell, r, c, dr, dc, i);
        }
        lemma_line_leaves_origin(b, placed, cell, r, c, dr, dc, k + 1);
    }
}

/// The capturing lines that leave a square are the same whether they are read
/// before the new piece is placed on it or after.
pub proof fn law_placement_keeps_lines(
    b: Board,
    placed: Board,
    side: Side,
    r: int,
    c: int,
    dr: int,
    dc: int,
)
    requires
        on_board(r, c),
        is_direction(dr, dc),
        placed@ == b@.update(square(r, c), side.piece()),
    ensures
        captures(placed, side, r, c, dr, dc) == captures(b, side, r, c, dr, dc),
        run_len(placed, side, r, c, dr, dc) == run_len(b, side, r, c, dr, dc),
{
    if captures(b, side, r, c, dr, dc) {
        let k = run_len(b, side, r, c, dr, dc);
        lemma_placement_keeps_run(b, placed, side, r, c, dr, dc, k);
        lemma_run_bound(placed, side, r, c, dr, dc, k);
    }
    if captures(placed, side, r, c, dr, dc) {
        let k = run_len(placed, side, r, c, dr, dc);
        lemma_placement_keeps_run(b, placed, side, r, c, dr, dc, k);
        lemma_run_bound(b, side, r, c, dr, dc, k);
    }
}

/// A legal move is on the board and on an empty square, and the square holds the
/// mover's piece once the move is made.
pub proof fn law_move_fills_empty_square(b: Board, side: Side, r: int, c: int, after: Board)
    requires
        legal_moves(b, side).contains((r, c)),
        after@ == after_move(b, side, r, c),
    ensures
        on_board(r, c),
        b.at(r, c) == Cell::Empty,
        after.at(r, c) == side.piece(),
        after.at(r, c) != Cell::Empty,
{
}

/// A move changes nothing but the square it is placed on and the squares it
/// captures: no piece leaves the board, and every other empty square stays empty.
pub proof fn law_pieces_stay(b: Board, side: Side, r: int, c: int, after: Board, i: int, j: int)
    requires
        is_legal(b, side, r, c),
        after@ == after_move(b, side, r, c),
        on_board(i, j),
    ensures
        b.at(i, j) != Cell::Empty ==> after.at(i, j) != Cell::Empty,
        b.at(i, j) == side.piece() ==> after.at(i, j) == side.piece(),
        b.at(i, j) == Cell::Empty && !(i == r && j == c) ==> after.at(i, j) == Cell::Empty,
{
    let n = square(i, j);
    assert(n / 8 == i && n % 8 == j);
    if is_flipped(b, side, r, c, i, j) {
        lemma_flipped_was_opponent(b, side, r, c, i, j);
    }
}

/// Counts over the first `n` squares, before and after a move.
proof fn lemma_counts_prefix(b: Board, side: Side, r: int, c: int, after: Board, n: nat)
    requires
        is_legal(b, side, r, c),
        after@ == after_move(b, side, r, c),
        n <= 64,
    ensures
        count_prefix(after@, side.piece(), n) == count_prefix(b@, side.piece(), n) + flips_prefix(
            b,
            side,
            r,
            c,
            n,
        ) + if square(r, c) < n {
            1nat
        } else {
            0nat
        },
        count_prefix(after@, side.other().piece(), n) + flips_prefix(b, side, r, c, n)
            == count_prefix(b@, side.other().piece(), n),
    decreases n,
{
    if n > 0 {
        lemma_counts_prefix(b, side, r, c, after, (n - 1) as nat);
        let m = n - 1;
        if is_flipped(b, side, r, c, m / 8, m % 8) {
            lemma_flipped_was_opponent(b, side, r, c, m / 8, m % 8);
            assert(square(m / 8, m % 8) == m);
        }
    }
}

/// A captured square among the first `n` makes their number positive.
proof fn lemma_flips_positive(b: Board, side: Side, r: int, c: int, n: nat, m: int)
    requires
        0 <= m < n,
        is_flipped(b, side, r, c, m / 8, m % 8),
    ensures
        flips_prefix(b, side, r, c, n) >= 1,
    decreases n,
{
    if m < n - 1 {
        lemma_flips_positive(b, side, r, c, (n - 1) as nat, m);
    }
}

/// A legal move captures at least one piece.
pub proof fn law_legal_move_captures(b: Board, side: Side, r: int, c: int)
    requires
        is_legal(b, side, r, c),
    ensures
        flip_count(b, side, r, c) >= 1,
{
    let d = choose|d: int| 0 <= d < 8 && #[trigger] captures_dir(b, side, r, c, d);
    let dr = dir_row(d);
    let dc = dir_col(d);
    assert(captures(b, side, r, c, dr, dc));
    let len = run_len(b, side, r, c, dr, dc);
    assert(is_run(b, side, r, c, dr, dc, len));
    let i = along(r, dr, 1);
    let j = along(c, dc, 1);
    assert(on_board(i, j));
    assert(flips_at(b, side, r, c, d, 1, i, j));
    let m = square(i, j);
    assert(m / 8 == i && m % 8 == j);
    lemma_flips_positive(b, side, r, c, 64, m);
}

/// A move gives the mover one piece more than it captures, takes the captured
/// pieces from the opponent, and fills exactly one more square of the board.
pub proof fn law_move_counts(b: Board, side: Side, r: int, c: int, after: Board)
    requires
        is_legal(b, side, r, c),
        after@ == after_move(b, side, r, c),
    ensures
        count(after, side.piece()) == count(b, side.piece()) + 1 + flip_count(b, side, r, c),
        count(after, side.other().piece()) + flip_count(b, side, r, c) == count(
            b,
            side.other().piece(),
        ),
        occupied(after) == occupied(b) + 1,
        count(after, side.piece()) > count(b, side.piece()),
{
    lemma_counts_prefix(b, side, r, c, after, 64);
}

/// Where neither side has a legal move the game ends, whoever is to move; where
/// a side is asked for a move it has one, and where it is passed over it has none
/// and its opponent has one.
pub proof fn law_turn_order(b: Board, side: Side)
    ensures
        is_stuck(b, Side::White) && is_stuck(b, Side::Black) ==> action_for(b, side)
            == Action::Finish && state_after(to_move(side), action_for(b, side))
            == State::GameOver,
        action_for(b, side) == Action::Prompt(side) ==> exists|r: int, c: int|
            is_legal(b, side, r, c),
        action_for(b, side) == Action::Skip(side) ==> is_stuck(b, side) && !is_stuck(
            b,
            side.other(),
        ) && state_after(to_move(side), action_for(b, side)) == to_move(side.other()),
        action_for(b, side) == Action::Finish || action_for(b, side) == Action::Skip(side)
            || action_for(b, side) == Action::Prompt(side),
{
    if action_for(b, side) == Action::Prompt(side) {
        assert(!(legal_moves(b, side) =~= Set::<(int, int)>::empty()));
        let m = choose|m: (int, int)| legal_moves(b, side).contains(m);
        assert(is_legal(b, side, m.0, m.1));
    }
}

/// Two enumerations of the legal moves of one side on one board hold the same squares.
pub proof fn law_enumeration_repeats(b: Board, side: Side, first: MoveSet, second: MoveSet)
    requires
        first@ == legal_moves(b, side),
        second@ == legal_moves(b, side),
    ensures
        first@ == second@,
        first == second,
{
    crate::moves::lemma_same_squares(first, second);
}

} // verus!
