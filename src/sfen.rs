//! Serializer: pieces, boards, hands and positions written out in compact
//! notation, the inverse of the parser.
use vstd::prelude::*;

use crate::board::{Board, Hand, Position, PositionView};
use crate::lexer::RowLexerOutput;
use crate::piece::{
    color_text, hand_piece_text, kind_text, piece_text, upper, Color, HandPiece, Piece, PieceKind,
};
use crate::text::{decimal, push_decimal, string_from_chars, upper_chars};

verus! {

/// Tokens of a row written out: `run` empty squares are pending before
/// `cells`; a pending run is written as one digit before the next piece and
/// at the row's end.
pub open spec fn row_tokens(cells: Seq<Option<Piece>>, run: nat) -> Seq<RowLexerOutput>
    decreases cells.len(),
{
    let pending = if run > 0 {
        seq![RowLexerOutput::Digit(run as usize)]
    } else {
        Seq::empty()
    };
    if cells.len() == 0 {
        pending
    } else {
        match cells[0] {
            None => row_tokens(cells.skip(1), run + 1),
            Some(p) => pending + seq![RowLexerOutput::Piece(p)] + row_tokens(cells.skip(1), 0),
        }
    }
}

/// Notation of one token.
pub open spec fn token_text(t: RowLexerOutput) -> Seq<char> {
    match t {
        RowLexerOutput::Digit(n) => decimal(n as nat),
        RowLexerOutput::Piece(p) => piece_text(p),
    }
}

/// Notation of a token sequence: the tokens' texts, one after the other.
pub open spec fn tokens_text(toks: Seq<RowLexerOutput>) -> Seq<char>
    decreases toks.len(),
{
    if toks.len() == 0 {
        Seq::empty()
    } else {
        token_text(toks[0]) + tokens_text(toks.skip(1))
    }
}

/// The three squares of row `row`.
pub open spec fn row_cells(b: Seq<Option<Piece>>, row: int) -> Seq<Option<Piece>> {
    b.subrange(3 * row, 3 * row + 3)
}

/// Notation of row `row` of the board.
pub open spec fn row_text(b: Seq<Option<Piece>>, row: int) -> Seq<char> {
    tokens_text(row_tokens(row_cells(b, row), 0))
}

/// Notation of a board: its four rows joined by `/`.
pub open spec fn board_text(b: Seq<Option<Piece>>) -> Seq<char> {
    row_text(b, 0) + seq!['/'] + row_text(b, 1) + seq!['/'] + row_text(b, 2) + seq!['/']
        + row_text(b, 3)
}

/// Notation of one hand entry: nothing for no entry or zero, the bare
/// letter for one, the letter and the decimal count for more.
pub open spec fn count_text(k: HandPiece, e: Option<usize>) -> Seq<char> {
    match e {
        Some(n) => if n == 1 {
            hand_piece_text(k)
        } else if n > 1 {
            hand_piece_text(k) + decimal(n as nat)
        } else {
            Seq::empty()
        },
        None => Seq::empty(),
    }
}

/// Notation of a hand, lower case, in the order pawn, bishop, rook.
pub open spec fn hand_text(h: Hand) -> Seq<char> {
    count_text(HandPiece::Pawn, h.pawn) + count_text(HandPiece::Bishop, h.bishop) + count_text(
        HandPiece::Rook,
        h.rook,
    )
}

/// Notation of both hands: Black's upper-cased, then White's.
pub open spec fn hands_text(black: Hand, white: Hand) -> Seq<char> {
    upper(hand_text(black)) + hand_text(white)
}

/// Notation of a position: board, side to move and hands, separated by
/// spaces; `-` stands for hands that are both written as nothing.
pub open spec fn position_text(p: PositionView) -> Seq<char> {
    let h = hands_text(p.black_hand, p.white_hand);
    board_text(p.board) + seq![' '] + color_text(p.to_play) + seq![' '] + if h.len() == 0 {
        seq!['-']
    } else {
        h
    }
}

pub proof fn lemma_tokens_text_concat(a: Seq<RowLexerOutput>, b: Seq<RowLexerOutput>)
    ensures
        tokens_text(a + b) == tokens_text(a) + tokens_text(b),
    decreases a.len(),
{
    if a.len() == 0 {
        assert(a + b =~= b);
        assert(tokens_text(a) + tokens_text(b) =~= tokens_text(b));
    } else {
        lemma_tokens_text_concat(a.skip(1), b);
        assert((a + b).skip(1) =~= a.skip(1) + b);
        assert((a + b)[0] == a[0]);
        assert(tokens_text(a + b) =~= tokens_text(a) + tokens_text(b));
    }
}

proof fn lemma_tokens_text_single(t: RowLexerOutput)
    ensures
        tokens_text(seq![t]) == token_text(t),
{
    assert(seq![t].skip(1) =~= Seq::<RowLexerOutput>::empty());
    assert(tokens_text(Seq::<RowLexerOutput>::empty()) == Seq::<char>::empty());
    assert(token_text(t) + Seq::<char>::empty() =~= token_text(t));
}

fn push_kind(out: &mut Vec<char>, k: PieceKind)
    ensures
        final(out)@ == old(out)@ + kind_text(k),
{
    match k {
        PieceKind::Pawn => out.push('p'),
        PieceKind::Bishop => out.push('b'),
        PieceKind::Rook => out.push('r'),
        PieceKind::King => out.push('k'),
        PieceKind::PromotedPawn => {
            out.push('p');
            out.push('+');
        },
    }
    assert(final(out)@ =~= old(out)@ + kind_text(k));
}

fn push_piece(out: &mut Vec<char>, p: Piece)
    ensures
        final(out)@ == old(out)@ + piece_text(p),
{
    let mut text: Vec<char> = Vec::new();
    push_kind(&mut text, p.kind);
    assert(text@ =~= kind_text(p.kind));
    let mut text = match p.color {
        Color::Black => upper_chars(&text),
        Color::White => text,
    };
    out.append(&mut text);
}

fn push_row(out: &mut Vec<char>, board: &Board, row: usize)
    requires
        row < 4,
    ensures
        final(out)@ == old(out)@ + row_text(board@, row as int),
{
    let ghost cells = row_cells(board@, row as int);
    let mut run: usize = 0;
    let mut col: usize = 0;
    assert(cells.skip(0) =~= cells);
    assert(old(out)@ + Seq::empty() =~= old(out)@);
    while col < 3
        invariant
            row < 4,
            col <= 3,
            run <= col,
            cells == row_cells(board@, row as int),
            cells.len() == 3,
            out@ + tokens_text(row_tokens(cells.skip(col as int), run as nat)) == old(out)@
                + row_text(board@, row as int),
        decreases 3 - col,
    {
        let ghost before = out@;
        let ghost rest = cells.skip(col as int);
        assert(rest.skip(1) =~= cells.skip(col + 1));
        let cell = board.get(3 * row + col);
        assert(rest[0] == cell);
        match cell {
            None => {
                run = run + 1;
            },
            Some(p) => {
                let ghost pending = if run > 0 {
                    seq![RowLexerOutput::Digit(run)]
                } else {
                    Seq::empty()
                };
                let ghost tail = row_tokens(cells.skip(col + 1), 0);
                let ghost r0 = run as nat;
                proof {
                    lemma_tokens_text_concat(pending + seq![RowLexerOutput::Piece(p)], tail);
                    lemma_tokens_text_concat(pending, seq![RowLexerOutput::Piece(p)]);
                    lemma_tokens_text_single(RowLexerOutput::Piece(p));
                    lemma_tokens_text_single(RowLexerOutput::Digit(run));
                    assert(tokens_text(Seq::<RowLexerOutput>::empty()) =~= Seq::<char>::empty());
                }
                if run > 0 {
                    push_decimal(out, run);
                }
                push_piece(out, p);
                run = 0;
                assert(before + tokens_text(row_tokens(rest, r0)) =~= out@ + tokens_text(tail));
            },
        }
        col = col + 1;
    }
    let ghost before = out@;
    proof {
        lemma_tokens_text_single(RowLexerOutput::Digit(run));
        assert(cells.skip(3).len() == 0);
    }
    if run > 0 {
        push_decimal(out, run);
    }
    assert(out@ =~= before + tokens_text(row_tokens(cells.skip(3), run as nat)));
}

fn push_board(out: &mut Vec<char>, board: &Board)
    ensures
        final(out)@ == old(out)@ + board_text(board@),
{
    push_row(out, board, 0);
    out.push('/');
    push_row(out, board, 1);
    out.push('/');
    push_row(out, board, 2);
    out.push('/');
    push_row(out, board, 3);
    assert(final(out)@ =~= old(out)@ + board_text(board@));
}

fn push_hand_piece(out: &mut Vec<char>, k: HandPiece)
    ensures
        final(out)@ == old(out)@ + hand_piece_text(k),
{
    match k {
        HandPiece::Pawn => out.push('p'),
        HandPiece::Bishop => out.push('b'),
        HandPiece::Rook => out.push('r'),
    }
    assert(final(out)@ =~= old(out)@ + hand_piece_text(k));
}

fn push_count(out: &mut Vec<char>, k: HandPiece, e: Option<usize>)
    ensures
        final(out)@ == old(out)@ + count_text(k, e),
{
    if let Some(n) = e {
        if n == 1 {
            push_hand_piece(out, k);
        } else if n > 1 {
            push_hand_piece(out, k);
            push_decimal(out, n);
            assert(final(out)@ =~= old(out)@ + count_text(k, e));
        }
    }
    assert(final(out)@ =~= old(out)@ + count_text(k, e));
}

fn push_hand(out: &mut Vec<char>, h: &Hand)
    ensures
        final(out)@ == old(out)@ + hand_text(*h),
{
    push_count(out, HandPiece::Pawn, h.pawn);
    push_count(out, HandPiece::Bishop, h.bishop);
    push_count(out, HandPiece::Rook, h.rook);
    assert(final(out)@ =~= old(out)@ + hand_text(*h));
}

fn push_color(out: &mut Vec<char>, c: Color)
    ensures
        final(out)@ == old(out)@ + color_text(c),
{
    match c {
        Color::Black => out.push('b'),
        Color::White => out.push('w'),
    }
    assert(final(out)@ =~= old(out)@ + color_text(c));
}

impl PieceKind {
    /// Lower-case notation of the kind.
    pub fn sfen(&self) -> (r: String)
        ensures
            r@ == kind_text(*self),
    {
        let mut out: Vec<char> = Vec::new();
        push_kind(&mut out, *self);
        assert(out@ =~= kind_text(*self));
        string_from_chars(&out)
    }
}

impl HandPiece {
    /// Lower-case notation of the kind.
    pub fn sfen(&self) -> (r: String)
        ensures
            r@ == hand_piece_text(*self),
    {
        let mut out: Vec<char> = Vec::new();
        push_hand_piece(&mut out, *self);
        assert(out@ =~= hand_piece_text(*self));
        string_from_chars(&out)
    }
}

impl Color {
    /// Notation of the side to move.
    pub fn sfen(&self) -> (r: String)
        ensures
            r@ == color_text(*self),
    {
        let mut out: Vec<char> = Vec::new();
        push_color(&mut out, *self);
        assert(out@ =~= color_text(*self));
        string_from_chars(&out)
    }
}

impl Piece {
    /// Notation of the piece: upper case for Black, lower case for White.
    pub fn sfen(&self) -> (r: String)
        ensures
            r@ == piece_text(*self),
    {
        let mut out: Vec<char> = Vec::new();
        push_piece(&mut out, *self);
        assert(out@ =~= piece_text(*self));
        string_from_chars(&out)
    }
}

impl Board {
    /// Notation of the board: four rows joined by `/`, runs of empty
    /// squares written as one digit.
    pub fn sfen(&self) -> (r: String)
        ensures
            r@ == board_text(self@),
    {
        let mut out: Vec<char> = Vec::new();
        push_board(&mut out, self);
        assert(out@ =~= board_text(self@));
        string_from_chars(&out)
    }
}

impl Hand {
    /// Lower-case notation of the hand.
    pub fn sfen(&self) -> (r: String)
        ensures
            r@ == hand_text(*self),
    {
        let mut out: Vec<char> = Vec::new();
        push_hand(&mut out, self);
        assert(out@ =~= hand_text(*self));
        string_from_chars(&out)
    }
}

impl Position {
    /// Notation of the position.
    pub fn sfen(&self) -> (r: String)
        ensures
            r@ == position_text(self@),
    {
        let mut out: Vec<char> = Vec::new();
        push_board(&mut out, &self.board);
        out.push(' ');
        push_color(&mut out, self.to_play);
        out.push(' ');
        let mut black: Vec<char> = Vec::new();
        push_hand(&mut black, &self.black_hand);
        let mut hands = upper_chars(&black);
        push_hand(&mut hands, &self.white_hand);
        assert(black@ =~= hand_text(self.black_hand));
        assert(hands@ =~= hands_text(self.black_hand, self.white_hand));
        if hands.len() == 0 {
            out.push('-');
        } else {
            out.append(&mut hands);
        }
        assert(out@ =~= position_text(self@));
        string_from_chars(&out)
    }
}

} // verus!
