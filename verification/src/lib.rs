//! Move-search support substrate for a two-player perfect-information board
//! game engine: a bounded signed evaluation type, a fixed-capacity bucketed
//! transposition cache over packed entries, and a bitboard position model
//! whose moves are reversible XOR bit-diffs.

pub mod evaluation;
pub mod hashtable;
pub mod position;
