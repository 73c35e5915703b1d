//! Rules engine for Glinski's hexagonal chess: cube coordinates, per-piece
//! movement shapes, a board with path blocking and check tracking, and a
//! game session that alternates turns.
pub mod board;
pub mod coord;
pub mod game;
pub mod notation;
pub mod piece;
pub mod render;

pub use board::{GetError, HexBoard, MoveError, MoveErrorType};
pub use coord::Coord;
pub use game::{Game, GameError};
pub use notation::parse_move;
pub use piece::{MovesPossible, Name, Piece, Team};
