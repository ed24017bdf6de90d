//! Model of a small 4x3 board game with per-player hands, and a verified
//! codec between positions and their one-line compact notation.
pub mod board;
pub mod lexer;
pub mod parser;
pub mod piece;
pub mod roundtrip;
pub mod sfen;
pub mod text;

pub use board::{
    rowcol2field, rowcol2index, Board, GameState, Hand, Hands, Position, ALL_INDEXES, BOARD_SIZE,
    COLS, ROWS,
};
pub use lexer::{
    lex_hand, lex_row, parse_color, parse_hand_piece, parse_piece, HandLexerOutput,
    RowLexerOutput,
};
pub use parser::{parse_board, parse_hands, parse_position, ParseError};
pub use piece::{Color, HandPiece, Piece, PieceKind, ALL_HAND_PIECES};
