//! Xiangqi (Chinese chess): rules kernel, search engine, game clock and
//! coaching helpers.
pub mod board;
pub mod color;
pub mod fen;
pub mod movegen;
pub mod mv;
pub mod nature;
pub mod notation;
pub mod piece;
pub mod position;
pub mod repetition;
pub mod rules;
pub mod square;
pub mod text;
pub mod zobrist;

pub use color::Color;
pub use fen::{FenError, STARTPOS_FEN, from_fen, to_fen};
pub use mv::{MAX_MOVES, Move, MoveList, MoveRecord};
pub use nature::MoveNature;
pub use notation::{Action, MoveDesc, NotationError, Subject};
pub use piece::{EMPTY, PieceKind, color_of, encode, is_empty, kind_of};
pub use position::{IllegalMove, Position, PositionError, position_from_pieces};
pub use repetition::{RepetitionVerdict, adjudicate, is_threefold, occurrences};
pub use rules::{DrawReason, GameStatus, SIXTY_MOVE_HALF_MOVES, perft, perft_divide};
pub use square::{
    BOARD_SIZE, COLS, ROWS, col_of, from_iccs, index, is_valid_index, on_board, route_number,
    row_of, to_iccs,
};
pub mod ai;
pub mod session;
pub mod coach;
pub mod bridge;
