//! Move inference for a sensor-driven chess board: given two snapshots of the
//! 8-by-8 grid and the side to move, recover the single move that explains the
//! difference, or say why no single move can.

mod board;
mod decipher;
mod laws;

pub use board::{flip_board, flip_piece, Board, Move, MoveError, Piece, Position, Team};
pub use decipher::decipher_move;
