//! Parser of board, hand and position notation, built on the lexers.
use vstd::prelude::*;

use crate::board::{empty_hand, empty_squares, Board, Hand, Hands, Position, PositionView};
use crate::lexer::{
    lex_hand_chars, lex_row_chars, lexed_hand, lexed_row, HandLexerOutput, RowLexerOutput,
};
use crate::piece::{color_of, Color, HandPiece, Piece};
use crate::text::{chars_of, split, split_chars};

verus! {

/// Why a text is not the notation of a position.
#[derive(Debug, Clone, Copy, PartialEq, Eq, Structural)]
pub enum ParseError {
    /// The text is not three fields separated by single spaces.
    InvalidFieldCount,
    /// The board field does not split into exactly four rows on `/`.
    InvalidRowCount,
    /// A piece of the board field falls past the last square.
    SquareOutOfRange,
    /// The side-to-move field is neither `b` nor `w`.
    UnknownSide,
    /// A letter of the hand field is not in the hand table.
    UnknownHandPiece,
}

/// The squares after placing `toks` on `b` from square `cursor` on: a run
/// advances the cursor without writing, a piece is written at the cursor,
/// which then advances by one. Rows do not reset the cursor. `None` where a
/// piece falls outside the board.
pub open spec fn placed(toks: Seq<RowLexerOutput>, b: Seq<Option<Piece>>, cursor: int) -> Option<
    Seq<Option<Piece>>,
>
    decreases toks.len(),
{
    if toks.len() == 0 {
        Some(b)
    } else {
        match toks[0] {
            RowLexerOutput::Digit(d) => placed(toks.skip(1), b, cursor + d),
            RowLexerOutput::Piece(p) => if 0 <= cursor < b.len() {
                placed(toks.skip(1), b.update(cursor, Some(p)), cursor + 1)
            } else {
                None
            },
        }
    }
}

/// The tokens of the rows, one row after the other.
pub open spec fn lexed_rows(rows: Seq<Seq<char>>) -> Seq<RowLexerOutput>
    decreases rows.len(),
{
    if rows.len() == 0 {
        Seq::empty()
    } else {
        lexed_rows(rows.drop_last()) + lexed_row(rows.last())
    }
}

/// The squares that a board text describes: it must split into four rows
/// on `/`, whose tokens are placed from the first square of an empty board.
pub open spec fn parsed_board(s: Seq<char>) -> Result<Seq<Option<Piece>>, ParseError> {
    let rows = split(s, '/');
    if rows.len() != 4 {
        Err(ParseError::InvalidRowCount)
    } else {
        match placed(lexed_rows(rows), empty_squares(), 0) {
            Some(b) => Ok(b),
            None => Err(ParseError::SquareOutOfRange),
        }
    }
}

/// Once the cursor is past the last square, where exactly it stands no
/// longer matters.
proof fn lemma_placed_past_end(
    toks: Seq<RowLexerOutput>,
    b: Seq<Option<Piece>>,
    c1: int,
    c2: int,
)
    requires
        c1 >= b.len(),
        c2 >= b.len(),
    ensures
        placed(toks, b, c1) == placed(toks, b, c2),
    decreases toks.len(),
{
    if toks.len() > 0 {
        match toks[0] {
            RowLexerOutput::Digit(d) => {
                lemma_placed_past_end(toks.skip(1), b, c1 + d, c2 + d);
            },
            RowLexerOutput::Piece(p) => {},
        }
    }
}

/// The board that `toks` give when placed from the first square of an
/// empty board, or `None` where a piece falls past the last square.
pub fn place_tokens(toks: &Vec<RowLexerOutput>) -> (r: Option<Board>)
    ensures
        r is Some <==> placed(toks@, empty_squares(), 0) is Some,
        r is Some ==> r->0@ == placed(toks@, empty_squares(), 0)->0,
{
    let mut board = Board::empty();
    let mut cursor: usize = 0;
    let mut i: usize = 0;
    assert(toks@.skip(0) =~= toks@);
    while i < toks.len()
        invariant
            i <= toks@.len(),
            cursor <= 12,
            board@.len() == 12,
            placed(toks@, empty_squares(), 0) == placed(toks@.skip(i as int), board@, cursor as int),
        decreases toks@.len() - i,
    {
        let ghost rest = toks@.skip(i as int);
        assert(rest.skip(1) =~= toks@.skip(i + 1));
        assert(rest[0] == toks@[i as int]);
        match toks[i] {
            RowLexerOutput::Digit(d) => {
                if d >= 12 - cursor {
                    proof {
                        lemma_placed_past_end(rest.skip(1), board@, cursor + d, 12);
                    }
                    cursor = 12;
                } else {
                    cursor = cursor + d;
                }
            },
            RowLexerOutput::Piece(p) => {
                if cursor >= 12 {
                    return None;
                }
                board.set(cursor, Some(p));
                cursor = cursor + 1;
            },
        }
        i = i + 1;
    }
    assert(toks@.skip(i as int).len() == 0);
    Some(board)
}

pub fn board_from_chars(chars: &Vec<char>) -> (r: Result<Board, ParseError>)
    ensures
        parsed_board(chars@) is Ok <==> r is Ok,
        r is Ok ==> r->Ok_0@ == parsed_board(chars@)->Ok_0,
        parsed_board(chars@) is Err ==> r == Err::<Board, ParseError>(
            parsed_board(chars@)->Err_0,
        ),
{
    let rows = split_chars(chars, '/');
    if rows.len() != 4 {
        return Err(ParseError::InvalidRowCount);
    }
    let ghost all = split(chars@, '/');
    let mut toks: Vec<RowLexerOutput> = Vec::new();
    let mut k: usize = 0;
    assert(all.take(0) =~= Seq::<Seq<char>>::empty());
    while k < 4
        invariant
            k <= 4,
            rows@.len() == 4,
            all == split(chars@, '/'),
            all.len() == 4,
            forall|j: int| 0 <= j < rows@.len() ==> #[trigger] rows@[j]@ == all[j],
            toks@ == lexed_rows(all.take(k as int)),
        decreases 4 - k,
    {
        let mut row_toks = lex_row_chars(&rows[k]);
        assert(all.take(k + 1).drop_last() =~= all.take(k as int));
        toks.append(&mut row_toks);
        k = k + 1;
    }
    assert(all.take(4) =~= all);
    match place_tokens(&toks) {
        Some(b) => Ok(b),
        None => Err(ParseError::SquareOutOfRange),
    }
}

/// The board that a board text describes, or `None` where it does not
/// split into four rows or a piece falls past the last square.
pub fn parse_board(board: &str) -> (r: Option<Board>)
    ensures
        r is Some <==> parsed_board(board@) is Ok,
        r is Some ==> r->0@ == parsed_board(board@)->Ok_0,
{
    let chars = chars_of(board);
    match board_from_chars(&chars) {
        Ok(b) => Some(b),
        Err(_) => None,
    }
}

impl Hands {
    /// Both hands with `n` more of `piece` in the hand of `color`.
    pub open spec fn added(self, color: Color, piece: HandPiece, n: nat) -> Hands {
        match color {
            Color::Black => Hands { black: self.black.added(piece, n), ..self },
            Color::White => Hands { white: self.white.added(piece, n), ..self },
        }
    }
}

/// Two empty hands.
pub open spec fn no_hands() -> Hands {
    Hands { black: empty_hand(), white: empty_hand() }
}

/// The hands that hand tokens describe: starting from two empty hands, each
/// token adds its count to its color's hand, creating the entry where there
/// is none.
pub open spec fn gathered(toks: Seq<HandLexerOutput>) -> Hands
    decreases toks.len(),
{
    if toks.len() == 0 {
        no_hands()
    } else {
        let t = toks.last();
        gathered(toks.drop_last()).added(t.color, t.piece, t.count as nat)
    }
}

/// The hands that a hand text describes, or `None` where a letter is not in
/// the hand table.
pub open spec fn hands_of(s: Seq<char>) -> Option<Hands> {
    match lexed_hand(s) {
        Some(t) => Some(gathered(t)),
        None => None,
    }
}

/// Every count in `h` is at most `m`.
pub open spec fn counts_at_most(h: Hands, m: int) -> bool {
    forall|c: Color, k: HandPiece| #[trigger] h.of(c).count(k) <= m
}

proof fn lemma_lexed_hand_bounds(s: Seq<char>)
    requires
        lexed_hand(s) is Some,
    ensures
        lexed_hand(s)->0.len() <= s.len(),
        forall|j: int|
            0 <= j < lexed_hand(s)->0.len() ==> #[trigger] lexed_hand(s)->0[j].count <= 9,
    decreases s.len(),
{
    if s.len() > 0 {
        lemma_lexed_hand_bounds(s.skip(1));
    }
}

proof fn lemma_gathered_bound(toks: Seq<HandLexerOutput>)
    requires
        forall|j: int| 0 <= j < toks.len() ==> #[trigger] toks[j].count <= 9,
    ensures
        counts_at_most(gathered(toks), 9 * toks.len() as int),
    decreases toks.len(),
{
    if toks.len() > 0 {
        let init = toks.drop_last();
        assert forall|j: int| 0 <= j < init.len() implies #[trigger] init[j].count <= 9 by {
            assert(init[j] == toks[j]);
        }
        lemma_gathered_bound(init);
        let t = toks.last();
        assert(t.count <= 9) by {
            assert(toks[toks.len() - 1] == t);
        }
        let h = gathered(init);
        let g = gathered(toks);
        assert forall|c: Color, k: HandPiece| #[trigger] g.of(c).count(k) <= 9 * toks.len() by {
            assert(h.of(c).count(k) <= 9 * init.len());
        }
    }
}

/// The hands that hand tokens describe, each count at most 9 and at most
/// `bound` tokens, where 9 times `bound` fits in a `usize`.
fn gather_tokens(toks: &Vec<HandLexerOutput>, bound: usize) -> (r: Hands)
    requires
        toks@.len() <= bound,
        9 * bound <= usize::MAX,
        forall|j: int| 0 <= j < toks@.len() ==> #[trigger] toks@[j].count <= 9,
    ensures
        r == gathered(toks@),
{
    let mut black = Hand::new();
    let mut white = Hand::new();
    let mut i: usize = 0;
    while i < toks.len()
        invariant
            i <= toks@.len(),
            toks@.len() <= bound,
            9 * bound <= usize::MAX,
            forall|j: int| 0 <= j < toks@.len() ==> #[trigger] toks@[j].count <= 9,
            (Hands { black, white }) == gathered(toks@.take(i as int)),
        decreases toks@.len() - i,
    {
        let t = toks[i];
        let ghost pre = toks@.take(i as int);
        proof {
            assert forall|j: int| 0 <= j < pre.len() implies #[trigger] pre[j].count <= 9 by {
                assert(pre[j] == toks@[j]);
            }
            lemma_gathered_bound(pre);
            assert(toks@.take(i + 1).drop_last() =~= pre);
            assert(toks@.take(i + 1).last() == t);
            let h = gathered(pre);
            assert(h.of(t.color).count(t.piece) <= 9 * i);
        }
        match t.color {
            Color::Black => black.add(t.piece, t.count),
            Color::White => white.add(t.piece, t.count),
        }
        i = i + 1;
    }
    assert(toks@.take(i as int) =~= toks@);
    Hands { black, white }
}

pub fn hands_from_chars(chars: &Vec<char>) -> (r: Option<Hands>)
    requires
        9 * chars@.len() <= usize::MAX,
    ensures
        r == hands_of(chars@),
{
    match lex_hand_chars(chars) {
        Some(toks) => {
            proof {
                lemma_lexed_hand_bounds(chars@);
            }
            Some(gather_tokens(&toks, chars.len()))
        },
        None => None,
    }
}

/// The hands that a hand text describes, or `None` where a letter is not in
/// the hand table. The empty text gives two empty hands.
pub fn parse_hands(hands: &str) -> (r: Option<Hands>)
    requires
        9 * hands@.len() <= usize::MAX,
    ensures
        r == hands_of(hands@),
{
    let chars = chars_of(hands);
    hands_from_chars(&chars)
}

/// The hands of the hand field of a position: `-` for two empty hands.
pub open spec fn hands_field_of(t: Seq<char>) -> Option<Hands> {
    if t.len() == 1 && t[0] == '-' {
        Some(no_hands())
    } else {
        hands_of(t)
    }
}

/// The position that a text describes: three fields separated by spaces,
/// the board, the side to move and the hands.
pub open spec fn parsed_position(s: Seq<char>) -> Result<PositionView, ParseError> {
    let fields = split(s, ' ');
    if fields.len() != 3 {
        Err(ParseError::InvalidFieldCount)
    } else {
        match parsed_board(fields[0]) {
            Err(e) => Err(e),
            Ok(b) => match color_of(fields[1]) {
                None => Err(ParseError::UnknownSide),
                Some(c) => match hands_field_of(fields[2]) {
                    None => Err(ParseError::UnknownHandPiece),
                    Some(h) => Ok(
                        PositionView { board: b, to_play: c, black_hand: h.black, white_hand: h.white },
                    ),
                },
            },
        }
    }
}

proof fn lemma_split_pieces_shorter(s: Seq<char>, sep: char)
    ensures
        forall|j: int|
            0 <= j < split(s, sep).len() ==> #[trigger] split(s, sep)[j].len() <= s.len(),
    decreases s.len(),
{
    if s.len() > 0 {
        lemma_split_pieces_shorter(s.drop_last(), sep);
        crate::text::lemma_split_len(s.drop_last(), sep);
    }
}

/// The position that a text describes, or the first reason why it is not
/// a position's notation.
pub fn parse_position(text: &str) -> (r: Result<Position, ParseError>)
    requires
        9 * text@.len() <= usize::MAX,
    ensures
        parsed_position(text@) is Ok <==> r is Ok,
        r is Ok ==> r->Ok_0@ == parsed_position(text@)->Ok_0,
        parsed_position(text@) is Err ==> r == Err::<Position, ParseError>(
            parsed_position(text@)->Err_0,
        ),
{
    let chars = chars_of(text);
    let fields = split_chars(&chars, ' ');
    if fields.len() != 3 {
        return Err(ParseError::InvalidFieldCount);
    }
    let board = match board_from_chars(&fields[0]) {
        Ok(b) => b,
        Err(e) => {
            return Err(e);
        },
    };
    let f1 = &fields[1];
    let to_play = if f1.len() == 1 && f1[0] == 'b' {
        Color::Black
    } else if f1.len() == 1 && f1[0] == 'w' {
        Color::White
    } else {
        return Err(ParseError::UnknownSide);
    };
    let f2 = &fields[2];
    let hands = if f2.len() == 1 && f2[0] == '-' {
        Hands { black: Hand::new(), white: Hand::new() }
    } else {
        proof {
            lemma_split_pieces_shorter(chars@, ' ');
        }
        match hands_from_chars(f2) {
            Some(h) => h,
            None => {
                return Err(ParseError::UnknownHandPiece);
            },
        }
    };
    Ok(Position { board, to_play, black_hand: hands.black, white_hand: hands.white })
}

} // verus!
