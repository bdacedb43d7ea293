//! Reversi on an 8x8 board: move enumeration, capture, turn order and scoring.

pub mod board;
pub mod capture;
pub mod input;
pub mod laws;
pub mod lines;
pub mod moves;
pub mod score;
pub mod text;
pub mod turn;
