//! Directions and capturing lines: the geometry behind legal moves and flips.

use vstd::prelude::*;
use crate::board::{on_board, Board, Cell, Side};

verus! {

/// Row component of the `d`-th of the eight directions.
pub open spec fn dir_row(d: int) -> int {
    if d == 1 || d == 4 || d == 5 {
        1
    } else if d == 3 || d == 6 || d == 7 {
        -1
    } else {
        0
    }
}

/// Column component of the `d`-th of the eight directions.
pub open spec fn dir_col(d: int) -> int {
    if d == 0 || d == 4 || d == 6 {
        1
    } else if d == 2 || d == 5 || d == 7 {
        -1
    } else {
        0
    }
}

/// Whether `(dr, dc)` is a unit step towards one of the eight neighbours.
pub open spec fn is_direction(dr: int, dc: int) -> bool {
    -1 <= dr <= 1 && -1 <= dc <= 1 && !(dr == 0 && dc == 0)
}

/// The coordinate reached from `x` after `k` steps of `d`.
pub open spec fn along(x: int, d: int, k: int) -> int {
    x + k * d
}

/// `k` opponent pieces lie next to `(r, c)` in direction `(dr, dc)`, and the square
/// after them is on the board and holds a piece of `side`.
pub open spec fn is_run(b: Board, side: Side, r: int, c: int, dr: int, dc: int, k: int) -> bool {
    &&& k >= 1
    &&& forall|i: int|
        1 <= i <= k ==> on_board(#[trigger] along(r, dr, i), along(c, dc, i)) && b.at(
            along(r, dr, i),
            along(c, dc, i),
        ) == side.other().piece()
    &&& on_board(along(r, dr, k + 1), along(c, dc, k + 1))
    &&& b.at(along(r, dr, k + 1), along(c, dc, k + 1)) == side.piece()
}

/// Direction `(dr, dc)` is a capturing line for `side` from `(r, c)`.
pub open spec fn captures(b: Board, side: Side, r: int, c: int, dr: int, dc: int) -> bool {
    exists|k: int| is_run(b, side, r, c, dr, dc, k)
}

/// Number of opponent pieces captured from `(r, c)` in direction `(dr, dc)`;
/// zero where the direction is no capturing line.
pub open spec fn run_len(b: Board, side: Side, r: int, c: int, dr: int, dc: int) -> int {
    if captures(b, side, r, c, dr, dc) {
        choose|k: int| is_run(b, side, r, c, dr, dc, k)
    } else {
        0
    }
}

/// The `d`-th direction is a capturing line for `side` from `(r, c)`.
pub open spec fn captures_dir(b: Board, side: Side, r: int, c: int, d: int) -> bool {
    captures(b, side, r, c, dir_row(d), dir_col(d))
}

/// `side` may place a piece on `(r, c)`: the square is empty and at least one of
/// the eight directions is a capturing line.
pub open spec fn is_legal(b: Board, side: Side, r: int, c: int) -> bool {
    &&& on_board(r, c)
    &&& b.at(r, c) == Cell::Empty
    &&& exists|d: int| 0 <= d < 8 && #[trigger] captures_dir(b, side, r, c, d)
}

/// The set of legal moves of `side` on `b`.
pub open spec fn legal_moves(b: Board, side: Side) -> Set<(int, int)> {
    Set::new(|m: (int, int)| is_legal(b, side, m.0, m.1))
}

/// Walking along a unit direction: one more step adds the direction once, and the
/// distance walked shows in the coordinate.
pub proof fn lemma_along(x: int, d: int, k: int)
    requires
        -1 <= d <= 1,
    ensures
        along(x, d, k + 1) == along(x, d, k) + d,
        along(x, d, 0) == x,
        d == 0 ==> along(x, d, k) == x,
        d == 1 ==> along(x, d, k) == x + k,
        d == -1 ==> along(x, d, k) == x - k,
{
    assert((k + 1) * d == k * d + d) by (nonlinear_arith);
    assert(d == 1 ==> k * d == k) by (nonlinear_arith);
    assert(d == -1 ==> k * d == -k) by (nonlinear_arith);
    assert(d == 0 ==> k * d == 0) by (nonlinear_arith);
}

/// A capturing line has one length only.
pub proof fn lemma_run_unique(b: Board, side: Side, r: int, c: int, dr: int, dc: int, k1: int, k2: int)
    requires
        is_run(b, side, r, c, dr, dc, k1),
        is_run(b, side, r, c, dr, dc, k2),
    ensures
        k1 == k2,
{
    if k1 < k2 {
        assert(on_board(along(r, dr, k1 + 1), along(c, dc, k1 + 1)));
    } else if k2 < k1 {
        assert(on_board(along(r, dr, k2 + 1), along(c, dc, k2 + 1)));
    }
}

/// A capturing line on the board is between one and six pieces long, and its
/// length is the one that `run_len` names.
pub proof fn lemma_run_bound(b: Board, side: Side, r: int, c: int, dr: int, dc: int, k: int)
    requires
        on_board(r, c),
        is_direction(dr, dc),
        is_run(b, side, r, c, dr, dc, k),
    ensures
        1 <= k <= 6,
        run_len(b, side, r, c, dr, dc) == k,
{
    lemma_along(r, dr, k + 1);
    lemma_along(c, dc, k + 1);
    let n = run_len(b, side, r, c, dr, dc);
    lemma_run_unique(b, side, r, c, dr, dc, k, n);
}

/// The `d`-th direction as a pair of machine integers.
pub fn direction(d: usize) -> (step: (i32, i32))
    requires
        d < 8,
    ensures
        step.0 == dir_row(d as int),
        step.1 == dir_col(d as int),
        is_direction(step.0 as int, step.1 as int),
{
    match d {
        0 => (0, 1),
        1 => (1, 0),
        2 => (0, -1),
        3 => (-1, 0),
        4 => (1, 1),
        5 => (1, -1),
        6 => (-1, 1),
        _ => (-1, -1),
    }
}

/// Counts the opponent pieces that `side` captures from `(r, c)` in direction
/// `(dr, dc)`; zero where the direction is no capturing line.
pub fn scan(b: &Board, side: Side, r: usize, c: usize, dr: i32, dc: i32) -> (n: usize)
    requires
        r < 8,
        c < 8,
        is_direction(dr as int, dc as int),
    ensures
        n == run_len(*b, side, r as int, c as int, dr as int, dc as int),
        n > 0 <==> captures(*b, side, r as int, c as int, dr as int, dc as int),
        n <= 6,
{
    let own: Cell = side.cell();
    let opp: Cell = side.opponent().cell();
    let mut k: usize = 0;
    let mut nx: i32 = r as i32 + dr;
    let mut ny: i32 = c as i32 + dc;
    proof {
        lemma_along(r as int, dr as int, 0);
        lemma_along(c as int, dc as int, 0);
    }
    while 0 <= nx && nx < 8 && 0 <= ny && ny < 8 && b.get(nx as usize, ny as usize) == opp
        invariant
            r < 8,
            c < 8,
            is_direction(dr as int, dc as int),
            own == side.piece(),
            opp == side.other().piece(),
            k <= 7,
            nx == along(r as int, dr as int, k + 1),
            ny == along(c as int, dc as int, k + 1),
            forall|i: int|
                1 <= i <= k ==> on_board(
                    #[trigger] along(r as int, dr as int, i),
                    along(c as int, dc as int, i),
                ) && b.at(along(r as int, dr as int, i), along(c as int, dc as int, i)) == opp,
        decreases 8 - k,
    {
        proof {
            lemma_along(r as int, dr as int, k + 1);
            lemma_along(c as int, dc as int, k + 1);
        }
        k = k + 1;
        nx = nx + dr;
        ny = ny + dc;
    }
    let hit: bool = 0 <= nx && nx < 8 && 0 <= ny && ny < 8 && b.get(nx as usize, ny as usize)
        == own;
    if hit && k >= 1 {
        proof {
            assert(is_run(*b, side, r as int, c as int, dr as int, dc as int, k as int));
            lemma_run_bound(*b, side, r as int, c as int, dr as int, dc as int, k as int);
        }
        k
    } else {
        proof {
            if captures(*b, side, r as int, c as int, dr as int, dc as int) {
                let j = choose|j: int| is_run(*b, side, r as int, c as int, dr as int, dc as int, j);
                if j < k {
                    assert(on_board(
                        along(r as int, dr as int, j + 1),
                        along(c as int, dc as int, j + 1),
                    ));
                } else if j > k {
                    assert(on_board(
                        along(r as int, dr as int, k + 1),
                        along(c as int, dc as int, k + 1),
                    ));
                }
                assert(false);
            }
        }
        0
    }
}

} // verus!
