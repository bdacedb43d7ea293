//! Enumeration of the legal moves of one side.

use vstd::prelude::*;
use crate::board::{on_board, square, Board, Cell, Side};
use crate::lines::{captures_dir, direction, is_legal, legal_moves, scan};

verus! {

/// A set of squares, one flag per square in row-major order.
#[derive(Clone, Copy, Debug, PartialEq, Eq)]
pub struct MoveSet {
    flags: [bool; 64],
}

impl View for MoveSet {
    type V = Set<(int, int)>;

    closed spec fn view(&self) -> Set<(int, int)> {
        Set::new(|m: (int, int)| on_board(m.0, m.1) && self.flags@[square(m.0, m.1)])
    }
}

impl MoveSet {
    /// The set without any square.
    pub fn new() -> (s: MoveSet)
        ensures
            s@ == Set::<(int, int)>::empty(),
    {
        let s = MoveSet { flags: [false; 64] };
        assert(s@ =~= Set::<(int, int)>::empty());
        s
    }

    /// Adds the square `(r, c)`.
    pub fn insert(&mut self, r: usize, c: usize)
        requires
            r < 8,
            c < 8,
        ensures
            final(self)@ == old(self)@.insert((r as int, c as int)),
    {
        self.flags[r * 8 + c] = true;
        assert(self@ =~= old(self)@.insert((r as int, c as int)));
    }

    /// Whether the square `(r, c)` is in the set. Coordinates off the board never are.
    pub fn contains(&self, r: usize, c: usize) -> (found: bool)
        ensures
            found == self@.contains((r as int, c as int)),
    {
        r < 8 && c < 8 && self.flags[r * 8 + c]
    }

    /// Whether the set holds no square at all.
    pub fn is_empty(&self) -> (none: bool)
        ensures
            none == (self@ == Set::<(int, int)>::empty()),
    {
        let mut i: usize = 0;
        while i < 64
            invariant
                i <= 64,
                forall|j: int| 0 <= j < i ==> !self.flags@[j],
            decreases 64 - i,
        {
            if self.flags[i] {
                proof {
                    let m = ((i / 8) as int, (i % 8) as int);
                    assert(self@.contains(m));
                }
                return false;
            }
            i = i + 1;
        }
        assert(self@ =~= Set::<(int, int)>::empty());
        true
    }

    /// The squares of the set in row-major order.
    pub fn to_vec(&self) -> (v: Vec<(usize, usize)>)
        ensures
            forall|r: int, c: int|
                self@.contains((r, c)) <==> exists|i: int|
                    0 <= i < v@.len() && (#[trigger] v@[i]).0 == r && v@[i].1 == c,
            forall|i: int, j: int|
                0 <= i < j < v@.len() ==> square(v@[i].0 as int, v@[i].1 as int) < square(
                    v@[j].0 as int,
                    v@[j].1 as int,
                ),
    {
        let mut v: Vec<(usize, usize)> = Vec::new();
        let mut n: usize = 0;
        while n < 64
            invariant
                n <= 64,
                forall|i: int|
                    0 <= i < v@.len() ==> (#[trigger] v@[i]).0 < 8 && v@[i].1 < 8 && square(
                        v@[i].0 as int,
                        v@[i].1 as int,
                    ) < n && self.flags@[square(v@[i].0 as int, v@[i].1 as int)],
                forall|r: int, c: int|
                    on_board(r, c) && square(r, c) < n && self.flags@[square(r, c)] ==> exists|
                        i: int,
                    |
                        0 <= i < v@.len() && (#[trigger] v@[i]).0 == r && v@[i].1 == c,
                forall|i: int, j: int|
                    0 <= i < j < v@.len() ==> square(v@[i].0 as int, v@[i].1 as int) < square(
                        v@[j].0 as int,
                        v@[j].1 as int,
                    ),
            decreases 64 - n,
        {
            if self.flags[n] {
                let ghost before = v@;
                v.push((n / 8, n % 8));
                proof {
                    let last = before.len() as int;
                    assert(v@[last] == ((n / 8) as usize, (n % 8) as usize));
                    assert forall|r: int, c: int|
                        on_board(r, c) && square(r, c) < n + 1 && self.flags@[square(
                            r,
                            c,
                        )] implies exists|i: int|
                        0 <= i < v@.len() && (#[trigger] v@[i]).0 == r && v@[i].1 == c by {
                        if square(r, c) < n {
                            let i = choose|i: int|
                                0 <= i < before.len() && (#[trigger] before[i]).0 == r
                                    && before[i].1 == c;
                            assert(v@[i] == before[i]);
                        } else {
                            assert(v@[last].0 == r && v@[last].1 == c);
                        }
                    }
                }
            }
            n = n + 1;
        }
        v
    }
}

/// Two sets with the same squares are the same value.
pub proof fn lemma_same_squares(a: MoveSet, b: MoveSet)
    requires
        a@ == b@,
    ensures
        a == b,
{
    assert forall|n: int| 0 <= n < 64 implies a.flags@[n] == b.flags@[n] by {
        let m = (n / 8, n % 8);
        assert(square(m.0, m.1) == n && on_board(m.0, m.1));
        assert(a@.contains(m) == a.flags@[n]);
        assert(b@.contains(m) == b.flags@[n]);
    }
    assert(a.flags@ =~= b.flags@);
    assert(a.flags =~= b.flags);
}

/// Finds every legal move of `side` on `board`.
pub fn get_moves(board: &Board, side: Side) -> (moves: MoveSet)
    ensures
        moves@ == legal_moves(*board, side),
        forall|r: int, c: int|
            moves@.contains((r, c)) ==> on_board(r, c) && #[trigger] board.at(r, c) == Cell::Empty,
{
    let mut moves = MoveSet::new();
    let mut r: usize = 0;
    while r < 8
        invariant
            r <= 8,
            forall|i: int, j: int|
                #![trigger moves@.contains((i, j))]
                #![trigger is_legal(*board, side, i, j)]
                moves@.contains((i, j)) <==> (i < r && is_legal(*board, side, i, j)),
        decreases 8 - r,
    {
        let mut c: usize = 0;
        while c < 8
            invariant
                r < 8,
                c <= 8,
                forall|i: int, j: int|
                    #![trigger moves@.contains((i, j))]
                    #![trigger is_legal(*board, side, i, j)]
                    moves@.contains((i, j)) <==> ((i < r || (i == r && j < c)) && is_legal(
                        *board,
                        side,
                        i,
                        j,
                    )),
            decreases 8 - c,
        {
            if is_legal_move(board, side, r, c) {
                moves.insert(r, c);
            }
            c = c + 1;
        }
        r = r + 1;
    }
    assert(moves@ =~= legal_moves(*board, side));
    moves
}

/// Decides whether `side` may place a piece on `(r, c)`. Coordinates off the
/// board are never legal.
pub fn is_legal_move(board: &Board, side: Side, r: usize, c: usize) -> (legal: bool)
    ensures
        legal == is_legal(*board, side, r as int, c as int),
{
    if r >= 8 || c >= 8 {
        return false;
    }
    if board.get(r, c) != Cell::Empty {
        return false;
    }
    let mut d: usize = 0;
    while d < 8
        invariant
            d <= 8,
            r < 8,
            c < 8,
            board.at(r as int, c as int) == Cell::Empty,
            forall|e: int| 0 <= e < d ==> !captures_dir(*board, side, r as int, c as int, e),
        decreases 8 - d,
    {
        let step = direction(d);
        if scan(board, side, r, c, step.0, step.1) > 0 {
            assert(captures_dir(*board, side, r as int, c as int, d as int));
            return true;
        }
        d = d + 1;
    }
    false
}

} // verus!
