//! Tokenizers for one board row and for the hand field, and the letter
//! tables they look tokens up in.
use vstd::prelude::*;

use crate::piece::{
    color_of, digit_value, hand_letter, hand_piece_of, is_digit, piece_of, Color, HandPiece,
    Piece, PieceKind,
};
use crate::text::chars_of;

verus! {

/// The side named by `color`: `b` for Black, `w` for White.
pub fn parse_color(color: &str) -> (r: Option<Color>)
    ensures
        r == color_of(color@),
{
    let t = chars_of(color);
    if t.len() == 1 && t[0] == 'b' {
        Some(Color::Black)
    } else if t.len() == 1 && t[0] == 'w' {
        Some(Color::White)
    } else {
        None
    }
}

/// The piece that a token text names in the piece-letter table.
pub fn parse_piece(piece: &str) -> (r: Option<Piece>)
    ensures
        r == piece_of(piece@),
{
    let t = chars_of(piece);
    piece_from_chars(&t)
}

pub fn piece_from_chars(t: &Vec<char>) -> (r: Option<Piece>)
    ensures
        r == piece_of(t@),
{
    if t.len() == 1 {
        let (kind, color) = match t[0] {
            'p' => (PieceKind::Pawn, Color::White),
            'b' => (PieceKind::Bishop, Color::White),
            'r' => (PieceKind::Rook, Color::White),
            'k' => (PieceKind::King, Color::White),
            'P' => (PieceKind::Pawn, Color::Black),
            'B' => (PieceKind::Bishop, Color::Black),
            'R' => (PieceKind::Rook, Color::Black),
            'K' => (PieceKind::King, Color::Black),
            _ => {
                return None;
            },
        };
        Some(Piece { kind, color })
    } else if t.len() == 2 && t[1] == '+' {
        match t[0] {
            'p' => Some(Piece { kind: PieceKind::PromotedPawn, color: Color::White }),
            'P' => Some(Piece { kind: PieceKind::PromotedPawn, color: Color::Black }),
            _ => None,
        }
    } else {
        None
    }
}

/// The hand kind that a lower-case one-letter text names.
pub fn parse_hand_piece(piece: &str) -> (r: Option<HandPiece>)
    ensures
        r == hand_piece_of(piece@),
{
    let t = chars_of(piece);
    if t.len() == 1 {
        match t[0] {
            'p' => Some(HandPiece::Pawn),
            'b' => Some(HandPiece::Bishop),
            'r' => Some(HandPiece::Rook),
            _ => None,
        }
    } else {
        None
    }
}

/// A token of a board row.
#[derive(Debug, Clone, Copy, PartialEq, Eq, Structural)]
pub enum RowLexerOutput {
    /// A run of that many empty squares.
    Digit(usize),
    /// One occupied square.
    Piece(Piece),
}

/// The text of the piece token that starts at `s[0]`: the letter with the
/// `+` that follows it, or the letter alone.
pub open spec fn piece_token_text(s: Seq<char>) -> Seq<char> {
    if s.len() > 1 && s[1] == '+' {
        s.take(2)
    } else {
        s.take(1)
    }
}

/// Tokens of a row text. A stray `+` is skipped, a digit is a run of empty
/// squares, any other character starts a piece token that is looked up in
/// the piece-letter table and dropped when the table has no entry for it.
/// Each character starts a token, so the `+` of a promoted pawn is then
/// skipped as a stray one.
pub open spec fn lexed_row(s: Seq<char>) -> Seq<RowLexerOutput>
    decreases s.len(),
{
    if s.len() == 0 {
        Seq::empty()
    } else if s[0] == '+' {
        lexed_row(s.skip(1))
    } else if is_digit(s[0]) {
        seq![RowLexerOutput::Digit(digit_value(s[0]) as usize)] + lexed_row(s.skip(1))
    } else {
        match piece_of(piece_token_text(s)) {
            Some(p) => seq![RowLexerOutput::Piece(p)] + lexed_row(s.skip(1)),
            None => lexed_row(s.skip(1)),
        }
    }
}

/// Tokens of one board row.
pub fn lex_row(row: &str) -> (r: Vec<RowLexerOutput>)
    ensures
        r@ == lexed_row(row@),
{
    let chars = chars_of(row);
    lex_row_chars(&chars)
}

pub fn lex_row_chars(chars: &Vec<char>) -> (r: Vec<RowLexerOutput>)
    ensures
        r@ == lexed_row(chars@),
{
    let ghost s = chars@;
    let mut result: Vec<RowLexerOutput> = Vec::new();
    let mut i: usize = 0;
    assert(s.skip(0) =~= s);
    while i < chars.len()
        invariant
            s == chars@,
            i <= s.len(),
            lexed_row(s) == result@ + lexed_row(s.skip(i as int)),
        decreases s.len() - i,
    {
        let ch = chars[i];
        let ghost rest = s.skip(i as int);
        assert(rest.skip(1) =~= s.skip(i + 1));
        assert(rest[0] == ch);
        if ch == '+' {
        } else if crate::piece::is_digit_char(ch) {
            let d = crate::piece::digit_of(ch);
            result.push(RowLexerOutput::Digit(d as usize));
            assert(lexed_row(s) == result@ + lexed_row(s.skip(i + 1)));
        } else {
            let mut text: Vec<char> = Vec::new();
            text.push(ch);
            if i + 1 < chars.len() && chars[i + 1] == '+' {
                text.push('+');
            }
            assert(text@ =~= piece_token_text(rest));
            if let Some(piece) = piece_from_chars(&text) {
                result.push(RowLexerOutput::Piece(piece));
                assert(lexed_row(s) == result@ + lexed_row(s.skip(i + 1)));
            }
        }
        i = i + 1;
    }
    assert(s.skip(i as int) =~= Seq::<char>::empty());
    assert(result@ + Seq::<RowLexerOutput>::empty() =~= result@);
    result
}

/// A token of the hand field: `count` pieces of one kind in one color's hand.
#[derive(Debug, Clone, Copy, PartialEq, Eq, Structural)]
pub struct HandLexerOutput {
    pub piece: HandPiece,
    pub color: Color,
    pub count: usize,
}

/// `a` in front of the tokens of `o`, or no tokens where `o` failed.
pub open spec fn prepend<T>(a: Seq<T>, o: Option<Seq<T>>) -> Option<Seq<T>> {
    match o {
        Some(b) => Some(a + b),
        None => None,
    }
}

/// Tokens of a hand text, or `None` where a letter is not in the hand
/// table. A digit that no letter precedes is skipped; a letter is read as
/// one token whose count is the digit right after it, or 1 where no digit
/// follows. The count digit is then met again and skipped.
pub open spec fn lexed_hand(s: Seq<char>) -> Option<Seq<HandLexerOutput>>
    decreases s.len(),
{
    if s.len() == 0 {
        Some(Seq::empty())
    } else if is_digit(s[0]) {
        lexed_hand(s.skip(1))
    } else {
        match hand_letter(s[0]) {
            None => None,
            Some((piece, color)) => {
                let count = if s.len() > 1 && is_digit(s[1]) {
                    digit_value(s[1])
                } else {
                    1
                };
                prepend(
                    seq![HandLexerOutput { piece, color, count: count as usize }],
                    lexed_hand(s.skip(1)),
                )
            },
        }
    }
}

/// Tokens of the hand field, or `None` where a letter is not in the hand table.
pub fn lex_hand(hands: &str) -> (r: Option<Vec<HandLexerOutput>>)
    ensures
        r is Some <==> lexed_hand(hands@) is Some,
        r is Some ==> r->0@ == lexed_hand(hands@)->0,
{
    let chars = chars_of(hands);
    lex_hand_chars(&chars)
}

pub fn lex_hand_chars(chars: &Vec<char>) -> (r: Option<Vec<HandLexerOutput>>)
    ensures
        r is Some <==> lexed_hand(chars@) is Some,
        r is Some ==> r->0@ == lexed_hand(chars@)->0,
{
    let ghost s = chars@;
    let mut result: Vec<HandLexerOutput> = Vec::new();
    let mut i: usize = 0;
    assert(s.skip(0) =~= s);
    while i < chars.len()
        invariant
            s == chars@,
            i <= s.len(),
            lexed_hand(s) == prepend(result@, lexed_hand(s.skip(i as int))),
        decreases s.len() - i,
    {
        let ch = chars[i];
        let ghost rest = s.skip(i as int);
        assert(rest.skip(1) =~= s.skip(i + 1));
        assert(rest[0] == ch);
        if !crate::piece::is_digit_char(ch) {
            let (piece, color) = match ch {
                'p' => (HandPiece::Pawn, Color::White),
                'b' => (HandPiece::Bishop, Color::White),
                'r' => (HandPiece::Rook, Color::White),
                'P' => (HandPiece::Pawn, Color::Black),
                'B' => (HandPiece::Bishop, Color::Black),
                'R' => (HandPiece::Rook, Color::Black),
                _ => {
                    return None;
                },
            };
            let mut count: usize = 1;
            if i + 1 < chars.len() && crate::piece::is_digit_char(chars[i + 1]) {
                count = crate::piece::digit_of(chars[i + 1]) as usize;
            }
            let ghost before = result@;
            let tok = HandLexerOutput { piece, color, count };
            result.push(tok);
            assert(lexed_hand(s) == prepend(result@, lexed_hand(s.skip(i + 1)))) by {
                match lexed_hand(s.skip(i + 1)) {
                    Some(b) => {
                        assert(before + (seq![tok] + b) =~= result@ + b);
                    },
                    None => {},
                }
            }
        }
        i = i + 1;
    }
    assert(s.skip(i as int) =~= Seq::<char>::empty());
    assert(result@ + Seq::<HandLexerOutput>::empty() =~= result@);
    Some(result)
}

} // verus!
