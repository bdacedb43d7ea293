use reversi::board::{set_up_board, Board, Cell, Side};
use reversi::input::{parse_input, OUT_OF_RANGE};
use reversi::moves::get_moves;
use reversi::score::{outcome, score, Outcome};
use reversi::text::{
    decimal_string, invalid_notice, prompt, render_board, render_row, report, skip_notice,
};
use reversi::turn::{next_action, submit, Action, Game, State};

fn full_board(cell: Cell) -> Board {
    let mut b = Board::empty();
    for r in 0..8 {
        for c in 0..8 {
            b.set(r, c, cell);
        }
    }
    b
}

fn white_stuck_board() -> Board {
    let mut b = Board::empty();
    b.set(0, 6, Cell::White);
    b.set(0, 7, Cell::Black);
    b
}

#[test]
fn parse_two_letters() {
    assert_eq!(parse_input(&"aa".to_string()), (0, 0));
    assert_eq!(parse_input(&"hh".to_string()), (7, 7));
    assert_eq!(parse_input(&"cf".to_string()), (2, 5));
    assert_eq!(parse_input(&"ha".to_string()), (7, 0));
}

#[test]
fn parse_rejects_other_text() {
    let invalid = (OUT_OF_RANGE, OUT_OF_RANGE);
    assert_eq!(invalid, (99, 99));
    for text in ["zz", "abc", "", "a", "ai", "ia", "AA", "a ", " a", "`a", "a`", "33", "aa\n", "\u{e9}a", "\u{e9}"] {
        assert_eq!(parse_input(&text.to_string()), invalid, "{:?}", text);
    }
}

#[test]
fn rejected_text_is_never_a_legal_move() {
    let b = set_up_board();
    let (r, c) = parse_input(&"zz".to_string());
    assert!(!get_moves(&b, Side::White).contains(r, c));
    assert!(!get_moves(&b, Side::Black).contains(r, c));
    let mut board = b;
    assert!(!submit(&mut board, Side::White, &"zz".to_string()));
    assert!(!submit(&mut board, Side::White, &"abc".to_string()));
    assert_eq!(board, b);
}

#[test]
fn submit_makes_a_legal_move() {
    let mut b = set_up_board();
    assert!(submit(&mut b, Side::White, &"ce".to_string()));
    assert_eq!(b.get(2, 4), Cell::White);
    assert_eq!(b.get(3, 4), Cell::White);
    assert_eq!(score(&b), (1, 4));
}

#[test]
fn submit_rejects_an_illegal_square() {
    let start = set_up_board();
    let mut b = start;
    assert!(!submit(&mut b, Side::White, &"aa".to_string()));
    assert!(!submit(&mut b, Side::White, &"dd".to_string()));
    assert!(!submit(&mut b, Side::White, &"cd".to_string()));
    assert_eq!(b, start);
}

#[test]
fn new_game_starts_with_white() {
    let mut g = Game::new();
    assert_eq!(g.state, State::WhiteToMove);
    assert_eq!(g.board, set_up_board());
    assert_eq!(g.side_to_move(), Some(Side::White));
    assert_eq!(g.step(), Action::Prompt(Side::White));
    assert_eq!(g.state, State::WhiteToMove);
}

#[test]
fn turn_passes_after_a_move() {
    let mut g = Game::new();
    assert!(!g.play(&"aa".to_string()));
    assert_eq!(g, Game::new());
    assert!(g.play(&"ce".to_string()));
    assert_eq!(g.state, State::BlackToMove);
    assert_eq!(g.step(), Action::Prompt(Side::Black));
    assert!(g.play(&"cd".to_string()));
    assert_eq!(g.state, State::WhiteToMove);
    assert_eq!(score(&g.board), (3, 3));
}

#[test]
fn stuck_side_is_skipped() {
    let b = white_stuck_board();
    assert!(get_moves(&b, Side::White).is_empty());
    assert!(!get_moves(&b, Side::Black).is_empty());
    assert_eq!(next_action(&b, Side::White), Action::Skip(Side::White));
    assert_eq!(next_action(&b, Side::Black), Action::Prompt(Side::Black));
    let mut g = Game::from_position(b, Side::White);
    assert_eq!(g.step(), Action::Skip(Side::White));
    assert_eq!(g.state, State::BlackToMove);
    assert_eq!(g.board, b);
    assert_eq!(g.step(), Action::Prompt(Side::Black));
    assert_eq!(g.state, State::BlackToMove);
    assert!(g.play(&"af".to_string()));
    assert_eq!(score(&g.board), (3, 0));
    assert_eq!(g.step(), Action::Finish);
    assert_eq!(g.state, State::GameOver);
}

#[test]
fn stuck_black_is_skipped_the_same_way() {
    let mut b = Board::empty();
    b.set(0, 6, Cell::Black);
    b.set(0, 7, Cell::White);
    let mut g = Game::from_position(b, Side::Black);
    assert_eq!(g.step(), Action::Skip(Side::Black));
    assert_eq!(g.state, State::WhiteToMove);
    assert_eq!(g.step(), Action::Prompt(Side::White));
}

#[test]
fn full_black_board_ends_at_once() {
    let b = full_board(Cell::Black);
    assert_eq!(next_action(&b, Side::White), Action::Finish);
    assert_eq!(next_action(&b, Side::Black), Action::Finish);
    let mut g = Game::from_position(b, Side::White);
    assert_eq!(g.step(), Action::Finish);
    assert_eq!(g.state, State::GameOver);
    assert_eq!(score(&g.board), (64, 0));
    assert_eq!(outcome(&g.board), Outcome::Win(Side::Black, 64));
    assert_eq!(report(outcome(&g.board)), "Black wins by 64 points!");
}

#[test]
fn finished_game_takes_no_move() {
    let mut g = Game::from_position(set_up_board(), Side::White);
    g.state = State::GameOver;
    let before = g;
    assert_eq!(g.side_to_move(), None);
    assert!(!g.play(&"ce".to_string()));
    assert_eq!(g.step(), Action::Finish);
    assert_eq!(g, before);
}

#[test]
fn no_moves_on_either_side_finishes() {
    let b = Board::empty();
    assert!(get_moves(&b, Side::White).is_empty());
    assert!(get_moves(&b, Side::Black).is_empty());
    assert_eq!(next_action(&b, Side::White), Action::Finish);
    assert_eq!(outcome(&b), Outcome::Draw);
    assert_eq!(report(outcome(&b)), "Draw!");
}

#[test]
fn outcome_names_winner_and_margin() {
    let mut b = Board::empty();
    b.set(0, 0, Cell::White);
    b.set(0, 1, Cell::White);
    b.set(0, 2, Cell::White);
    b.set(7, 7, Cell::Black);
    assert_eq!(outcome(&b), Outcome::Win(Side::White, 2));
    assert_eq!(report(outcome(&b)), "White wins by 2 points!");
    b.set(7, 6, Cell::Black);
    b.set(7, 5, Cell::Black);
    assert_eq!(outcome(&b), Outcome::Draw);
    b.set(7, 4, Cell::Black);
    assert_eq!(outcome(&b), Outcome::Win(Side::Black, 1));
    assert_eq!(report(outcome(&b)), "Black wins by 1 points!");
    assert_eq!(outcome(&set_up_board()), Outcome::Draw);
}

#[test]
fn numbers_in_decimal() {
    assert_eq!(decimal_string(0), "0");
    assert_eq!(decimal_string(7), "7");
    assert_eq!(decimal_string(10), "10");
    assert_eq!(decimal_string(64), "64");
    assert_eq!(decimal_string(1905), "1905");
}

#[test]
fn notices_and_prompts() {
    assert_eq!(skip_notice(Side::White), "W player has no valid move.");
    assert_eq!(skip_notice(Side::Black), "B player has no valid move.");
    assert_eq!(prompt(Side::White), "Enter move for colour W (RowCol): ");
    assert_eq!(prompt(Side::Black), "Enter move for colour B (RowCol): ");
    assert_eq!(invalid_notice(), "Invalid move. Try again.");
}

#[test]
fn board_is_drawn_with_letters() {
    let b = set_up_board();
    assert_eq!(render_row(&b, 3), "d ...WB...\n");
    assert_eq!(
        render_board(&b),
        "  abcdefgh\na ........\nb ........\nc ........\nd ...WB...\ne ...BW...\nf ........\ng ........\nh ........\n"
    );
}

#[test]
fn whole_game_by_first_moves_ends() {
    let mut g = Game::new();
    let mut prompts = 0;
    loop {
        match g.step() {
            Action::Finish => break,
            Action::Skip(side) => {
                assert_eq!(g.side_to_move(), Some(side.opponent()));
            }
            Action::Prompt(side) => {
                assert_eq!(g.side_to_move(), Some(side));
                let (r, c) = get_moves(&g.board, side).to_vec()[0];
                let letters = b"abcdefgh";
                let text = format!("{}{}", letters[r] as char, letters[c] as char);
                let (black, white) = score(&g.board);
                assert!(g.play(&text));
                let (black_after, white_after) = score(&g.board);
                assert_eq!(black_after + white_after, black + white + 1);
                prompts += 1;
            }
        }
        assert!(prompts <= 60);
    }
    assert_eq!(g.state, State::GameOver);
    assert!(get_moves(&g.board, Side::White).is_empty());
    assert!(get_moves(&g.board, Side::Black).is_empty());
}
