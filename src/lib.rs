//! A solver for the two-player board game "Second Best!".
//!
//! Eight stacks of up to three stones stand in a circle. Players place
//! their eight stones, then move the tops of the stacks they control; three
//! stones of one color in a stack, or four neighbouring stacks topped by one
//! color, win. Instead of moving, a player may call "Second Best!": the
//! opponent's last move is taken back and may not be played again this turn.
//!
//! - `bitboard`: the bit layout of the board and its laws.
//! - `notation`: decimal numbers and words of move notation.
//! - `position`: the game state, move rules, notation of moves and games.
//! - `movegen`: the ordered moves of a position.
//! - `eval`: scores and the static evaluation.
//! - `transposition_table`: the cache of search results.
//! - `solver`: iterative-deepening alpha-beta search.
//! - `bench`: pseudo-random numbers for picking benchmark positions.
//! - `replay`: a game written in notation plays back to the same game.
pub mod bitboard;
pub mod notation;
pub mod position;
pub mod movegen;
pub mod eval;
pub mod transposition_table;
pub mod solver;
pub mod bench;
pub mod replay;
