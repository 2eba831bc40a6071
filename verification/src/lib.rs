//! Rules engine for a game of checkers in which the human player (Red) must
//! declare each move before the opponent (Black) replies.
//!
//! The crate holds the board model, the move and jump generator, the turn
//! state machine and the opponent's policy. Rendering, input, audio and
//! animation belong to the program built around it.

pub mod board;
pub mod game;
pub mod intro;
pub mod jumps;
pub mod opponent;
pub mod outro;
pub mod places;
pub mod playing;
pub mod selection;
pub mod setup;
pub mod text;
pub mod turn;
