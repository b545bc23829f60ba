//! A small chess engine: position model, move generation, king-safety
//! filtering, material valuation and a depth-bounded alpha-beta search.
pub mod piece;
pub mod coords;
pub mod board;
pub mod movegen;
pub mod legality;
pub mod search;
pub mod select;
