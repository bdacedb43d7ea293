//! Placing a piece and flipping what it captures.

use vstd::prelude::*;
use crate::board::{on_board, square, Board, Cell, Side};
use crate::laws::{law_legal_move_captures, law_move_counts};
use crate::score::{count, occupied};
use crate::lines::{
    along, captures, dir_col, dir_row, direction, is_legal, is_run, lemma_along, run_len, scan,
};

verus! {

broadcast use crate::board::lemma_board_len;

/// `(i, j)` is the `k`-th square of the capturing line that leaves `(r, c)` in the
/// `d`-th direction.
pub open spec fn flips_at(
    b: Board,
    side: Side,
    r: int,
    c: int,
    d: int,
    k: int,
    i: int,
    j: int,
) -> bool {
    &&& 0 <= d < 8
    &&& 1 <= k <= run_len(b, side, r, c, dir_row(d), dir_col(d))
    &&& i == along(r, dir_row(d), k)
    &&& j == along(c, dir_col(d), k)
}

/// `(i, j)` holds an opponent piece that `side` captures by placing on `(r, c)`.
pub open spec fn is_flipped(b: Board, side: Side, r: int, c: int, i: int, j: int) -> bool {
    exists|d: int, k: int| #[trigger] flips_at(b, side, r, c, d, k, i, j)
}

/// The cells of the board after `side` has placed a piece on `(r, c)`: the new
/// piece, the captured pieces in the colour of `side`, everything else as before.
pub open spec fn after_move(b: Board, side: Side, r: int, c: int) -> Seq<Cell> {
    Seq::new(
        64,
        |n: int|
            if n == square(r, c) || is_flipped(b, side, r, c, n / 8, n % 8) {
                side.piece()
            } else {
                b@[n]
            },
    )
}

/// How many of the first `n` squares, in row-major order, are captured when
/// `side` places a piece on `(r, c)`.
pub open spec fn flips_prefix(b: Board, side: Side, r: int, c: int, n: nat) -> nat
    decreases n,
{
    if n == 0 {
        0
    } else {
        flips_prefix(b, side, r, c, (n - 1) as nat) + if is_flipped(
            b,
            side,
            r,
            c,
            (n - 1) / 8,
            (n - 1) % 8,
        ) {
            1nat
        } else {
            0nat
        }
    }
}

/// How many opponent pieces `side` captures by placing a piece on `(r, c)`.
pub open spec fn flip_count(b: Board, side: Side, r: int, c: int) -> nat {
    flips_prefix(b, side, r, c, 64)
}

/// `(i, j)` is captured by one of the lines before the `dmax`-th, or lies among
/// the first `kmax` squares of the `dmax`-th line.
pub open spec fn flipped_so_far(
    b: Board,
    side: Side,
    r: int,
    c: int,
    dmax: int,
    kmax: int,
    i: int,
    j: int,
) -> bool {
    exists|d: int, k: int|
        #[trigger] flips_at(b, side, r, c, d, k, i, j) && (d < dmax || (d == dmax && k <= kmax))
}

/// A captured square is on the board, held the opponent before the move, and is
/// not the square of the new piece.
pub proof fn lemma_flipped_was_opponent(b: Board, side: Side, r: int, c: int, i: int, j: int)
    requires
        on_board(r, c),
        is_flipped(b, side, r, c, i, j),
    ensures
        on_board(i, j),
        b.at(i, j) == side.other().piece(),
        !(i == r && j == c),
{
    let (d, k) = choose|d: int, k: int| #[trigger] flips_at(b, side, r, c, d, k, i, j);
    let dr = dir_row(d);
    let dc = dir_col(d);
    assert(captures(b, side, r, c, dr, dc));
    let n = run_len(b, side, r, c, dr, dc);
    assert(is_run(b, side, r, c, dr, dc, n));
    assert(on_board(along(r, dr, k), along(c, dc, k)));
    lemma_along(r, dr, k);
    lemma_along(c, dc, k);
}

/// Places a piece of `side` on `(r, c)` and turns every captured piece to the
/// colour of `side`.
pub fn apply_move(board: &mut Board, side: Side, r: usize, c: usize)
    requires
        is_legal(*old(board), side, r as int, c as int),
    ensures
        final(board)@ == after_move(*old(board), side, r as int, c as int),
        final(board).at(r as int, c as int) == side.piece(),
        count(*final(board), side.piece()) == count(*old(board), side.piece()) + 1 + flip_count(
            *old(board),
            side,
            r as int,
            c as int,
        ),
        count(*final(board), side.other().piece()) + flip_count(
            *old(board),
            side,
            r as int,
            c as int,
        ) == count(*old(board), side.other().piece()),
        occupied(*final(board)) == occupied(*old(board)) + 1,
        flip_count(*old(board), side, r as int, c as int) >= 1,
{
    let before: Board = *board;
    let own: Cell = side.cell();
    board.set(r, c, own);
    let mut d: usize = 0;
    while d < 8
        invariant
            d <= 8,
            r < 8,
            c < 8,
            own == side.piece(),
            before == *old(board),
            forall|n: int|
                0 <= n < 64 ==> #[trigger] board@[n] == if n == square(r as int, c as int)
                    || flipped_so_far(before, side, r as int, c as int, d as int, 0, n / 8, n % 8) {
                    own
                } else {
                    before@[n]
                },
        decreases 8 - d,
    {
        let step = direction(d);
        let len: usize = scan(&before, side, r, c, step.0, step.1);
        let mut k: usize = 0;
        let mut x: i32 = r as i32;
        let mut y: i32 = c as i32;
        proof {
            lemma_along(r as int, step.0 as int, 0);
            lemma_along(c as int, step.1 as int, 0);
            if len > 0 {
                assert(is_run(before, side, r as int, c as int, step.0 as int, step.1 as int, len as int));
            }
        }
        while k < len
            invariant
                d < 8,
                r < 8,
                c < 8,
                k <= len <= 6,
                own == side.piece(),
                step.0 == dir_row(d as int),
                step.1 == dir_col(d as int),
                len == run_len(before, side, r as int, c as int, dir_row(d as int), dir_col(d as int)),
                len > 0 ==> is_run(before, side, r as int, c as int, step.0 as int, step.1 as int, len as int),
                x == along(r as int, step.0 as int, k as int),
                y == along(c as int, step.1 as int, k as int),
                on_board(x as int, y as int),
                forall|n: int|
                    0 <= n < 64 ==> #[trigger] board@[n] == if n == square(r as int, c as int)
                        || flipped_so_far(
                        before,
                        side,
                        r as int,
                        c as int,
                        d as int,
                        k as int,
                        n / 8,
                        n % 8,
                    ) {
                        own
                    } else {
                        before@[n]
                    },
            decreases len - k,
        {
            proof {
                lemma_along(r as int, step.0 as int, k as int);
                lemma_along(c as int, step.1 as int, k as int);
                assert(on_board(
                    along(r as int, step.0 as int, k + 1),
                    along(c as int, step.1 as int, k + 1),
                ));
            }
            k = k + 1;
            x = x + step.0;
            y = y + step.1;
            let ghost prev = board@;
            board.set(x as usize, y as usize, own);
            proof {
                assert(flips_at(before, side, r as int, c as int, d as int, k as int, x as int, y as int));
                assert forall|n: int| 0 <= n < 64 implies #[trigger] board@[n] == if n == square(
                    r as int,
                    c as int,
                ) || flipped_so_far(
                    before,
                    side,
                    r as int,
                    c as int,
                    d as int,
                    k as int,
                    n / 8,
                    n % 8,
                ) {
                    own
                } else {
                    before@[n]
                } by {
                    lemma_so_far_step(before, side, r as int, c as int, d as int, k as int, n / 8, n % 8);
                    assert(prev[n] == if n == square(r as int, c as int) || flipped_so_far(
                        before,
                        side,
                        r as int,
                        c as int,
                        d as int,
                        k - 1,
                        n / 8,
                        n % 8,
                    ) {
                        own
                    } else {
                        before@[n]
                    });
                }
            }
        }
        proof {
            assert forall|n: int| 0 <= n < 64 implies #[trigger] board@[n] == if n == square(
                r as int,
                c as int,
            ) || flipped_so_far(before, side, r as int, c as int, d + 1, 0, n / 8, n % 8) {
                own
            } else {
                before@[n]
            } by {
                lemma_so_far_next(before, side, r as int, c as int, d as int, n / 8, n % 8);
            }
        }
        d = d + 1;
    }
    proof {
        assert forall|n: int| 0 <= n < 64 implies #[trigger] board@[n] == after_move(
            before,
            side,
            r as int,
            c as int,
        )[n] by {
            lemma_so_far_all(before, side, r as int, c as int, n / 8, n % 8);
        }
        assert(board@ =~= after_move(before, side, r as int, c as int));
        law_move_counts(before, side, r as int, c as int, *board);
        law_legal_move_captures(before, side, r as int, c as int);
    }
}

/// After the eighth line every captured square has been reached.
proof fn lemma_so_far_all(b: Board, side: Side, r: int, c: int, i: int, j: int)
    ensures
        flipped_so_far(b, side, r, c, 8, 0, i, j) <==> is_flipped(b, side, r, c, i, j),
{
    if is_flipped(b, side, r, c, i, j) {
        let (e, m) = choose|e: int, m: int| #[trigger] flips_at(b, side, r, c, e, m, i, j);
        assert(flips_at(b, side, r, c, e, m, i, j) && (e < 8 || (e == 8 && m <= 0)));
    }
}

/// Taking one more square of the current line adds exactly that square.
proof fn lemma_so_far_step(b: Board, side: Side, r: int, c: int, d: int, k: int, i: int, j: int)
    ensures
        flipped_so_far(b, side, r, c, d, k, i, j) <==> (flipped_so_far(b, side, r, c, d, k - 1, i, j)
            || flips_at(b, side, r, c, d, k, i, j)),
{
    if flipped_so_far(b, side, r, c, d, k, i, j) {
        let (e, m) = choose|e: int, m: int|
            #[trigger] flips_at(b, side, r, c, e, m, i, j) && (e < d || (e == d && m <= k));
        if !(e == d && m == k) {
            assert(flips_at(b, side, r, c, e, m, i, j) && (e < d || (e == d && m <= k - 1)));
        }
    }
    if flipped_so_far(b, side, r, c, d, k - 1, i, j) {
        let (e, m) = choose|e: int, m: int|
            #[trigger] flips_at(b, side, r, c, e, m, i, j) && (e < d || (e == d && m <= k - 1));
        assert(flips_at(b, side, r, c, e, m, i, j) && (e < d || (e == d && m <= k)));
    }
}

/// Once a line is done up to its length, the next line starts from the same squares.
proof fn lemma_so_far_next(b: Board, side: Side, r: int, c: int, d: int, i: int, j: int)
    ensures
        flipped_so_far(b, side, r, c, d + 1, 0, i, j) <==> flipped_so_far(
            b,
            side,
            r,
            c,
            d,
            run_len(b, side, r, c, dir_row(d), dir_col(d)),
            i,
            j,
        ),
{
    let len = run_len(b, side, r, c, dir_row(d), dir_col(d));
    if flipped_so_far(b, side, r, c, d + 1, 0, i, j) {
        let (e, m) = choose|e: int, m: int|
            #[trigger] flips_at(b, side, r, c, e, m, i, j) && (e < d + 1 || (e == d + 1 && m <= 0));
        assert(flips_at(b, side, r, c, e, m, i, j) && (e < d || (e == d && m <= len)));
    }
    if flipped_so_far(b, side, r, c, d, len, i, j) {
        let (e, m) = choose|e: int, m: int|
            #[trigger] flips_at(b, side, r, c, e, m, i, j) && (e < d || (e == d && m <= len));
        assert(flips_at(b, side, r, c, e, m, i, j) && (e < d + 1 || (e == d + 1 && m <= 0)));
    }
}

} // verus!
