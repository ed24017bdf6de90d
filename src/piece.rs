//! Piece vocabulary: kinds, hand-eligible kinds, colors, and the letters
//! that name them in notation.
use vstd::prelude::*;

verus! {

#[derive(Debug, Clone, Copy, PartialEq, Eq, Structural)]
pub enum PieceKind {
    Pawn,
    Bishop,
    Rook,
    King,
    PromotedPawn,
}

/// The kinds a piece can have while it sits in a hand. A promoted pawn
/// is demoted to a pawn before it enters a hand, and a king never does.
#[derive(Debug, Clone, Copy, PartialEq, Eq, Structural, Hash)]
pub enum HandPiece {
    Pawn,
    Bishop,
    Rook,
}

/// Hand-eligible kinds in the order in which a hand is written out.
pub const ALL_HAND_PIECES: [HandPiece; 3] = [HandPiece::Pawn, HandPiece::Bishop, HandPiece::Rook];

#[derive(Debug, Clone, Copy, PartialEq, Eq, Structural, Hash)]
pub enum Color {
    Black,
    White,
}

#[derive(Debug, Clone, Copy, PartialEq, Eq, Structural)]
pub struct Piece {
    pub kind: PieceKind,
    pub color: Color,
}

impl Piece {
    pub fn new(kind: PieceKind, color: Color) -> (r: Piece)
        ensures
            r == (Piece { kind, color }),
    {
        Piece { kind, color }
    }
}

/// An ASCII decimal digit.
pub open spec fn is_digit(c: char) -> bool {
    '0' <= c && c <= '9'
}

/// The value of a decimal digit character.
pub open spec fn digit_value(c: char) -> int {
    c as int - '0' as int
}

/// The character of a decimal digit `d < 10`.
pub open spec fn digit_char(d: int) -> char {
    (d + 48) as u8 as char
}

/// ASCII upper-casing of one character; other characters stay as they are.
pub open spec fn ascii_upper(c: char) -> char {
    if 'a' <= c && c <= 'z' {
        (c as int - 32) as u8 as char
    } else {
        c
    }
}

/// ASCII upper-casing of a whole text.
pub open spec fn upper(s: Seq<char>) -> Seq<char> {
    s.map_values(|c: char| ascii_upper(c))
}

/// Notation of a piece kind: its lower-case letter, with `+` for a promoted pawn.
pub open spec fn kind_text(k: PieceKind) -> Seq<char> {
    match k {
        PieceKind::Pawn => seq!['p'],
        PieceKind::Bishop => seq!['b'],
        PieceKind::Rook => seq!['r'],
        PieceKind::King => seq!['k'],
        PieceKind::PromotedPawn => seq!['p', '+'],
    }
}

/// Notation of a piece: its kind's text, upper-cased for Black.
pub open spec fn piece_text(p: Piece) -> Seq<char> {
    match p.color {
        Color::Black => upper(kind_text(p.kind)),
        Color::White => kind_text(p.kind),
    }
}

/// Notation of a hand-eligible kind: its lower-case letter.
pub open spec fn hand_piece_text(h: HandPiece) -> Seq<char> {
    match h {
        HandPiece::Pawn => seq!['p'],
        HandPiece::Bishop => seq!['b'],
        HandPiece::Rook => seq!['r'],
    }
}

/// Notation of the side to move.
pub open spec fn color_text(c: Color) -> Seq<char> {
    match c {
        Color::Black => seq!['b'],
        Color::White => seq!['w'],
    }
}

/// The piece that a one-letter token names.
pub open spec fn letter_piece(c: char) -> Option<Piece> {
    match c {
        'p' => Some(Piece { kind: PieceKind::Pawn, color: Color::White }),
        'b' => Some(Piece { kind: PieceKind::Bishop, color: Color::White }),
        'r' => Some(Piece { kind: PieceKind::Rook, color: Color::White }),
        'k' => Some(Piece { kind: PieceKind::King, color: Color::White }),
        'P' => Some(Piece { kind: PieceKind::Pawn, color: Color::Black }),
        'B' => Some(Piece { kind: PieceKind::Bishop, color: Color::Black }),
        'R' => Some(Piece { kind: PieceKind::Rook, color: Color::Black }),
        'K' => Some(Piece { kind: PieceKind::King, color: Color::Black }),
        _ => None,
    }
}

/// The piece that a letter followed by `+` names.
pub open spec fn promoted_letter_piece(c: char) -> Option<Piece> {
    match c {
        'p' => Some(Piece { kind: PieceKind::PromotedPawn, color: Color::White }),
        'P' => Some(Piece { kind: PieceKind::PromotedPawn, color: Color::Black }),
        _ => None,
    }
}

/// The piece-letter table: the piece that a token text names, if any.
pub open spec fn piece_of(t: Seq<char>) -> Option<Piece> {
    if t.len() == 1 {
        letter_piece(t[0])
    } else if t.len() == 2 && t[1] == '+' {
        promoted_letter_piece(t[0])
    } else {
        None
    }
}

/// The hand-piece-letter table, applied to a letter of either case: the
/// kind, and the color that the case gives (upper case for Black).
pub open spec fn hand_letter(c: char) -> Option<(HandPiece, Color)> {
    match c {
        'p' => Some((HandPiece::Pawn, Color::White)),
        'b' => Some((HandPiece::Bishop, Color::White)),
        'r' => Some((HandPiece::Rook, Color::White)),
        'P' => Some((HandPiece::Pawn, Color::Black)),
        'B' => Some((HandPiece::Bishop, Color::Black)),
        'R' => Some((HandPiece::Rook, Color::Black)),
        _ => None,
    }
}

/// The hand kind that a lower-case text of one letter names.
pub open spec fn hand_piece_of(t: Seq<char>) -> Option<HandPiece> {
    if t.len() == 1 {
        match t[0] {
            'p' => Some(HandPiece::Pawn),
            'b' => Some(HandPiece::Bishop),
            'r' => Some(HandPiece::Rook),
            _ => None,
        }
    } else {
        None
    }
}

/// The side that a text names.
pub open spec fn color_of(t: Seq<char>) -> Option<Color> {
    if t.len() == 1 && t[0] == 'b' {
        Some(Color::Black)
    } else if t.len() == 1 && t[0] == 'w' {
        Some(Color::White)
    } else {
        None
    }
}

pub fn is_digit_char(c: char) -> (r: bool)
    ensures
        r == is_digit(c),
{
    '0' <= c && c <= '9'
}

/// The value of a decimal digit character.
pub fn digit_of(c: char) -> (r: u8)
    requires
        is_digit(c),
    ensures
        r == digit_value(c),
        r < 10,
{
    (c as u32 - '0' as u32) as u8
}

/// The character of a decimal digit.
pub fn char_of_digit(d: u8) -> (r: char)
    requires
        d < 10,
    ensures
        r == digit_char(d as int),
        is_digit(r),
        digit_value(r) == d,
{
    (d + 48) as char
}

pub fn ascii_upper_char(c: char) -> (r: char)
    ensures
        r == ascii_upper(c),
{
    if 'a' <= c && c <= 'z' {
        ((c as u8) - 32) as char
    } else {
        c
    }
}

} // verus!
