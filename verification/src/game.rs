//! The playing board and its pieces.

pub mod board;
