//! A chess position engine: bitboard/mailbox position store, legal move
//! generation, reversible make/unmake, Zobrist hashing, material evaluation
//! and fixed-depth alpha-beta search.

pub mod ai;
pub mod bits;
pub mod hash;
pub mod math;
pub mod util;
pub mod board;
pub mod engine;
pub mod game;
