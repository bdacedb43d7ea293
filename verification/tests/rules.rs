use reversi::board::{set_up_board, Board, Cell, Side};
use reversi::capture::apply_move;
use reversi::lines::{direction, scan};
use reversi::moves::{get_moves, is_legal_move, MoveSet};
use reversi::score::{count_cells, score};

fn board_of(pieces: &[(usize, usize, Cell)]) -> Board {
    let mut b = Board::empty();
    for &(r, c, cell) in pieces {
        b.set(r, c, cell);
    }
    b
}

fn squares(moves: &MoveSet) -> Vec<(usize, usize)> {
    let mut v = Vec::new();
    for r in 0..8 {
        for c in 0..8 {
            if moves.contains(r, c) {
                v.push((r, c));
            }
        }
    }
    v
}

#[test]
fn initial_board_has_four_pieces() {
    let b = set_up_board();
    for r in 0..8 {
        for c in 0..8 {
            let expected = match (r, c) {
                (3, 3) | (4, 4) => Cell::White,
                (3, 4) | (4, 3) => Cell::Black,
                _ => Cell::Empty,
            };
            assert_eq!(b.get(r, c), expected);
        }
    }
    assert_eq!(count_cells(&b, Cell::Empty), 60);
    assert_eq!(score(&b), (2, 2));
}

#[test]
fn empty_board_is_empty() {
    let b = Board::empty();
    assert_eq!(count_cells(&b, Cell::Empty), 64);
    assert_eq!(score(&b), (0, 0));
}

#[test]
fn set_changes_one_square() {
    let mut b = Board::empty();
    b.set(2, 5, Cell::Black);
    assert_eq!(b.get(2, 5), Cell::Black);
    assert_eq!(b.get(5, 2), Cell::Empty);
    assert_eq!(count_cells(&b, Cell::Black), 1);
    assert_eq!(count_cells(&b, Cell::Empty), 63);
}

#[test]
fn sides_are_opponents() {
    assert_eq!(Side::Black.opponent(), Side::White);
    assert_eq!(Side::White.opponent(), Side::Black);
    assert_eq!(Side::Black.cell(), Cell::Black);
    assert_eq!(Side::White.cell(), Cell::White);
}

#[test]
fn directions_are_the_eight_neighbours() {
    let expected = [(0, 1), (1, 0), (0, -1), (-1, 0), (1, 1), (1, -1), (-1, 1), (-1, -1)];
    for d in 0..8 {
        assert_eq!(direction(d), expected[d]);
    }
}

#[test]
fn opening_moves_of_white() {
    let b = set_up_board();
    let moves = get_moves(&b, Side::White);
    assert_eq!(squares(&moves), vec![(2, 4), (3, 5), (4, 2), (5, 3)]);
    assert_eq!(moves.to_vec(), vec![(2, 4), (3, 5), (4, 2), (5, 3)]);
    assert!(!moves.is_empty());
}

#[test]
fn opening_moves_of_black() {
    let b = set_up_board();
    let moves = get_moves(&b, Side::Black);
    assert_eq!(squares(&moves), vec![(2, 3), (3, 2), (4, 5), (5, 4)]);
}

#[test]
fn legal_moves_are_on_empty_squares() {
    let mut b = set_up_board();
    apply_move(&mut b, Side::White, 2, 4);
    for side in [Side::Black, Side::White] {
        let moves = get_moves(&b, side);
        for (r, c) in moves.to_vec() {
            assert_eq!(b.get(r, c), Cell::Empty);
            assert!(is_legal_move(&b, side, r, c));
            let mut after = b;
            apply_move(&mut after, side, r, c);
            assert_eq!(after.get(r, c), side.cell());
        }
    }
}

#[test]
fn enumeration_repeats() {
    let b = set_up_board();
    let first = get_moves(&b, Side::White);
    let second = get_moves(&b, Side::White);
    assert_eq!(first, second);
    assert_eq!(first.to_vec(), second.to_vec());
}

#[test]
fn move_set_membership() {
    let mut s = MoveSet::new();
    assert!(s.is_empty());
    assert!(!s.contains(0, 0));
    s.insert(7, 7);
    s.insert(0, 3);
    assert!(s.contains(7, 7));
    assert!(s.contains(0, 3));
    assert!(!s.contains(3, 0));
    assert!(!s.contains(99, 99));
    assert!(!s.contains(0, 8));
    assert!(!s.contains(8, 0));
    assert!(!s.is_empty());
    assert_eq!(s.to_vec(), vec![(0, 3), (7, 7)]);
}

#[test]
fn run_to_the_edge_does_not_capture() {
    // White at the start of a row of Black pieces that runs off the board.
    let b = board_of(&[
        (0, 5, Cell::Black),
        (0, 6, Cell::Black),
        (0, 7, Cell::Black),
    ]);
    assert_eq!(scan(&b, Side::White, 0, 4, 0, 1), 0);
    assert!(!is_legal_move(&b, Side::White, 0, 4));
    assert!(get_moves(&b, Side::White).is_empty());
}

#[test]
fn run_ending_on_empty_does_not_capture() {
    let b = board_of(&[(3, 3, Cell::Black), (3, 4, Cell::Black)]);
    assert_eq!(scan(&b, Side::White, 3, 2, 0, 1), 0);
    assert!(!is_legal_move(&b, Side::White, 3, 2));
}

#[test]
fn neighbour_of_own_colour_does_not_capture() {
    let b = board_of(&[(3, 3, Cell::White), (3, 4, Cell::White)]);
    assert_eq!(scan(&b, Side::White, 3, 2, 0, 1), 0);
    assert!(!is_legal_move(&b, Side::White, 3, 2));
}

#[test]
fn scan_counts_the_captured_run() {
    let b = board_of(&[
        (0, 0, Cell::White),
        (0, 1, Cell::Black),
        (0, 2, Cell::Black),
        (0, 3, Cell::Black),
    ]);
    assert_eq!(scan(&b, Side::White, 0, 4, 0, -1), 3);
    assert_eq!(scan(&b, Side::White, 0, 4, 0, 1), 0);
    assert_eq!(scan(&b, Side::Black, 0, 4, 0, -1), 0);
}

#[test]
fn longest_run_is_six() {
    let mut b = Board::empty();
    b.set(0, 0, Cell::White);
    for i in 1..7 {
        b.set(i, i, Cell::Black);
    }
    assert_eq!(scan(&b, Side::White, 7, 7, -1, -1), 6);
    apply_move(&mut b, Side::White, 7, 7);
    assert_eq!(score(&b), (0, 8));
}

#[test]
fn occupied_square_is_not_legal() {
    let b = set_up_board();
    assert!(!is_legal_move(&b, Side::White, 3, 3));
    assert!(!is_legal_move(&b, Side::White, 3, 4));
    assert!(!is_legal_move(&b, Side::White, 99, 99));
    assert!(!is_legal_move(&b, Side::White, 2, 8));
}

#[test]
fn move_flipping_three_changes_counts() {
    let mut b = board_of(&[
        (0, 0, Cell::White),
        (0, 1, Cell::Black),
        (0, 2, Cell::Black),
        (0, 3, Cell::Black),
        (5, 5, Cell::Black),
    ]);
    assert_eq!(score(&b), (4, 1));
    apply_move(&mut b, Side::White, 0, 4);
    assert_eq!(score(&b), (1, 5));
    for c in 0..5 {
        assert_eq!(b.get(0, c), Cell::White);
    }
    assert_eq!(b.get(5, 5), Cell::Black);
    assert_eq!(count_cells(&b, Cell::Empty), 58);
}

#[test]
fn opening_move_flips_one() {
    let mut b = set_up_board();
    apply_move(&mut b, Side::White, 2, 4);
    assert_eq!(b.get(2, 4), Cell::White);
    assert_eq!(b.get(3, 4), Cell::White);
    assert_eq!(b.get(4, 3), Cell::Black);
    assert_eq!(b.get(3, 3), Cell::White);
    assert_eq!(b.get(4, 4), Cell::White);
    assert_eq!(score(&b), (1, 4));
}

#[test]
fn move_captures_in_several_directions() {
    // White pieces at the far end of three lines of Black pieces that meet at (3, 3).
    let mut b = board_of(&[
        (3, 4, Cell::Black),
        (3, 5, Cell::White),
        (4, 3, Cell::Black),
        (5, 3, Cell::Black),
        (6, 3, Cell::White),
        (2, 2, Cell::Black),
        (1, 1, Cell::White),
        (2, 3, Cell::Black),
        (3, 2, Cell::Black),
        (3, 1, Cell::Black),
        (3, 0, Cell::Black),
    ]);
    apply_move(&mut b, Side::White, 3, 3);
    let expected = board_of(&[
        (3, 3, Cell::White),
        (3, 4, Cell::White),
        (3, 5, Cell::White),
        (4, 3, Cell::White),
        (5, 3, Cell::White),
        (6, 3, Cell::White),
        (2, 2, Cell::White),
        (1, 1, Cell::White),
        (2, 3, Cell::Black),
        (3, 2, Cell::Black),
        (3, 1, Cell::Black),
        (3, 0, Cell::Black),
    ]);
    assert_eq!(b, expected);
}

#[test]
fn every_move_adds_one_piece() {
    let mut b = set_up_board();
    let mut side = Side::White;
    for _ in 0..10 {
        let moves = get_moves(&b, side).to_vec();
        if moves.is_empty() {
            side = side.opponent();
            continue;
        }
        let (black, white) = score(&b);
        let before = b;
        let (r, c) = moves[0];
        apply_move(&mut b, side, r, c);
        let (black_after, white_after) = score(&b);
        assert_eq!(black_after + white_after, black + white + 1);
        let (own, own_after, other, other_after) = match side {
            Side::Black => (black, black_after, white, white_after),
            Side::White => (white, white_after, black, black_after),
        };
        let flipped = other - other_after;
        assert!(flipped >= 1);
        assert_eq!(own_after, own + 1 + flipped);
        for i in 0..8 {
            for j in 0..8 {
                if before.get(i, j) != Cell::Empty {
                    assert!(b.get(i, j) != Cell::Empty);
                }
                if before.get(i, j) == side.cell() {
                    assert_eq!(b.get(i, j), side.cell());
                }
            }
        }
        side = side.opponent();
    }
}
