//! A chess rules engine on bitboards: pseudo-legal move generation, move
//! application, and detection of check, checkmate and stalemate.

pub mod bitboard;
pub mod game;
pub mod helper;
pub mod laws;
pub mod make_move;
pub mod moves;
pub mod piece;
pub mod position;
pub mod special_moves;

pub use bitboard::BitBoard;
pub use game::Game;
pub use helper::{index_to_square, initialize_board, square_to_index};
pub use make_move::make_move;
pub use moves::{valid_moves, Move};
pub use position::{Position, Sides};
