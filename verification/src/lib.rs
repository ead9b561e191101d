pub mod board;
pub mod piece_moves;
