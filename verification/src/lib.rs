pub mod errors;
mod text;

mod colors;
pub use colors::{Color, COLORS_NUMBER};

mod board_files;
pub use board_files::{File, FILES_NUMBER};

mod board_ranks;
pub use board_ranks::{Rank, RANKS_NUMBER};

pub mod coordinates;
pub use coordinates::{Square, SQUARES_NUMBER};

pub mod squares;

mod castling;
pub use castling::{CastlingRights, CASTLING_RIGHTS_NUMBER};

mod pieces;
pub use pieces::{Piece, PieceType, PIECE_TYPES_NUMBER};

mod bits;
mod geometry;
pub mod rules;
pub mod placement;
pub mod movegen;
mod bitboards;
pub use bitboards::BitBoard;

pub mod move_masks;

pub mod board_moves;
pub use board_moves::{
    BoardMove, DisplayAmbiguityType, MovePropertiesOnBoard, PieceMove, PromotionPieceType,
};

mod zobrist;
pub use zobrist::{PositionHashValueType, ZobristHasher};

pub mod board_builders;
pub use board_builders::BoardBuilder;

pub mod chess_boards;
pub use chess_boards::{BoardStatus, ChessBoard, LegalMoves};

mod render;

mod game_history;
pub use game_history::GameHistory;

pub mod games;
pub use games::{Action, Game, GameMetadata, GameStatus};

pub mod pgn;

pub mod san;
