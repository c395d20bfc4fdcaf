//! Move generation and fixed-depth minimax search for a small chess engine.
//!
//! Squares use the 0x88 layout: the low nibble is the file (0..8, a..h) and
//! the next nibble the rank (0..8, ranks 1..8).

pub mod square;
pub mod piece;
pub mod board;
pub mod movegen;
pub mod search;
pub mod round_trip;
