//! A bitboard chess engine core: lookup tables with magic multiplication for
//! sliding pieces, a pseudo-legal move generator with a legality filter,
//! in-place make/undo, static evaluation, alpha-beta search and perft.

pub mod bits;
pub mod utils;
pub mod lookup_tables;
pub mod board;
pub mod position;
pub mod moves_generator;
pub mod perft;
pub mod fen;
pub mod evaluation;
pub mod search;
pub mod uci;
