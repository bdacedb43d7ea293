//! Whose turn it is, when a side is skipped, and when the game is over.

use vstd::prelude::*;
use crate::board::{set_up_board, initial_cell, on_board, Board, Side};
use crate::capture::{after_move, apply_move};
use crate::input::{parse_input, parsed};
use crate::lines::{is_legal, legal_moves};
use crate::moves::{get_moves, is_legal_move};

verus! {

/// The state of a game.
#[derive(Clone, Copy, Debug, PartialEq, Eq, Structural)]
pub enum State {
    WhiteToMove,
    BlackToMove,
    GameOver,
}

/// What is to be done next.
#[derive(Clone, Copy, Debug, PartialEq, Eq, Structural)]
pub enum Action {
    /// Neither side can move: report the score.
    Finish,
    /// The side cannot move and is passed over; its opponent is to move.
    Skip(Side),
    /// The side can move: ask it for one.
    Prompt(Side),
}

/// The state in which `side` is to move.
pub open spec fn to_move(side: Side) -> State {
    match side {
        Side::White => State::WhiteToMove,
        Side::Black => State::BlackToMove,
    }
}

/// Whether `side` has no legal move on `b`.
pub open spec fn is_stuck(b: Board, side: Side) -> bool {
    legal_moves(b, side) == Set::<(int, int)>::empty()
}

/// What is to be done when `side` is to move on `b`.
pub open spec fn action_for(b: Board, side: Side) -> Action {
    if is_stuck(b, Side::White) && is_stuck(b, Side::Black) {
        Action::Finish
    } else if is_stuck(b, side) {
        Action::Skip(side)
    } else {
        Action::Prompt(side)
    }
}

/// The state after `action` was decided in a state where a side was to move.
pub open spec fn state_after(state: State, action: Action) -> State {
    match action {
        Action::Finish => State::GameOver,
        Action::Skip(side) => to_move(side.other()),
        Action::Prompt(_) => state,
    }
}

/// Decides what is to be done when `side` is to move on `board`.
pub fn next_action(board: &Board, side: Side) -> (action: Action)
    ensures
        action == action_for(*board, side),
        action == Action::Finish <==> is_stuck(*board, Side::White) && is_stuck(
            *board,
            Side::Black,
        ),
{
    let own = get_moves(board, side);
    let other = get_moves(board, side.opponent());
    if own.is_empty() && other.is_empty() {
        Action::Finish
    } else if own.is_empty() {
        Action::Skip(side)
    } else {
        Action::Prompt(side)
    }
}

/// A game in progress: the board and whose turn it is.
#[derive(Clone, Copy, Debug, PartialEq, Eq)]
pub struct Game {
    pub board: Board,
    pub state: State,
}

impl Game {
    /// The side to move, if the game is not over.
    pub open spec fn mover(self) -> Option<Side> {
        match self.state {
            State::WhiteToMove => Some(Side::White),
            State::BlackToMove => Some(Side::Black),
            State::GameOver => None,
        }
    }

    /// A new game: the starting position, White to move.
    pub fn new() -> (g: Game)
        ensures
            g.state == State::WhiteToMove,
            forall|r: int, c: int| on_board(r, c) ==> #[trigger] g.board.at(r, c) == initial_cell(r, c),
    {
        Game { board: set_up_board(), state: State::WhiteToMove }
    }

    /// A game that goes on from `board` with `side` to move.
    pub fn from_position(board: Board, side: Side) -> (g: Game)
        ensures
            g.board == board,
            g.state == to_move(side),
    {
        let state = match side {
            Side::White => State::WhiteToMove,
            Side::Black => State::BlackToMove,
        };
        Game { board, state }
    }

    /// The side to move, if the game is not over.
    pub fn side_to_move(&self) -> (side: Option<Side>)
        ensures
            side == self.mover(),
    {
        match self.state {
            State::WhiteToMove => Some(Side::White),
            State::BlackToMove => Some(Side::Black),
            State::GameOver => None,
        }
    }

    /// Decides what is to be done next and moves to the state that follows: the
    /// game is over where neither side can move, the turn passes where only the
    /// side to move cannot, and the state stays where a move is to be asked for.
    /// The board is not touched.
    pub fn step(&mut self) -> (action: Action)
        ensures
            final(self).board == old(self).board,
            match old(self).mover() {
                Some(side) => action == action_for(old(self).board, side) && final(self).state
                    == state_after(old(self).state, action),
                None => action == Action::Finish && final(self).state == State::GameOver,
            },
    {
        match self.side_to_move() {
            None => Action::Finish,
            Some(side) => {
                let action = next_action(&self.board, side);
                match action {
                    Action::Finish => {
                        self.state = State::GameOver;
                    },
                    Action::Skip(_) => {
                        self.state = Game::from_position(self.board, side.opponent()).state;
                    },
                    Action::Prompt(_) => {},
                }
                action
            },
        }
    }

    /// Takes a line of text as the move of the side to move. A line that names a
    /// legal move is accepted: the move is made and the turn passes to the
    /// opponent. Any other line, and any line once the game is over, is rejected
    /// and changes nothing.
    pub fn play(&mut self, input: &String) -> (accepted: bool)
        ensures
            match old(self).mover() {
                Some(side) => {
                    &&& accepted == is_legal(
                        old(self).board,
                        side,
                        parsed(input@).0,
                        parsed(input@).1,
                    )
                    &&& accepted ==> final(self).board@ == after_move(
                        old(self).board,
                        side,
                        parsed(input@).0,
                        parsed(input@).1,
                    ) && final(self).state == to_move(side.other())
                },
                None => !accepted,
            },
            !accepted ==> *final(self) == *old(self),
    {
        match self.side_to_move() {
            None => false,
            Some(side) => {
                let accepted = submit(&mut self.board, side, input);
                if accepted {
                    self.state = Game::from_position(self.board, side.opponent()).state;
                }
                accepted
            },
        }
    }
}

/// Takes a line of text as a move of `side`: where it names a legal move the move
/// is made, otherwise the board stays as it is.
pub fn submit(board: &mut Board, side: Side, input: &String) -> (accepted: bool)
    ensures
        accepted == is_legal(*old(board), side, parsed(input@).0, parsed(input@).1),
        accepted ==> final(board)@ == after_move(
            *old(board),
            side,
            parsed(input@).0,
            parsed(input@).1,
        ),
        !accepted ==> *final(board) == *old(board),
{
    let (r, c) = parse_input(input);
    if is_legal_move(board, side, r, c) {
        apply_move(board, side, r, c);
        true
    } else {
        false
    }
}

} // verus!
