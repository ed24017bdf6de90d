//! Laws relating the serializer to the parser: what is written out reads
//! back as the same value.
use vstd::prelude::*;

use crate::board::{empty_hand, empty_squares, Board, Hand, Hands, Position, PositionView};
use crate::lexer::{
    lexed_hand, lexed_row, piece_token_text, prepend, HandLexerOutput, RowLexerOutput,
};
use crate::parser::{
    gathered, hands_field_of, lexed_rows, no_hands, parsed_board, parsed_position, placed,
    ParseError,
};
use crate::piece::{
    ascii_upper, color_of, color_text, digit_char, digit_value, hand_letter, hand_piece_text,
    is_digit, kind_text, piece_of, piece_text, upper, Color, HandPiece, Piece, PieceKind,
};
use crate::sfen::{
    board_text, count_text, hand_text, hands_text, position_text, row_cells, row_text,
    row_tokens, token_text, tokens_text,
};
use crate::text::{decimal, holds_char, lemma_split_join, lemma_split_single, split};

verus! {

/// A token whose text the row lexer reads back unchanged: a run of at most
/// nine squares, written as one digit, or any piece.
pub open spec fn short_token(t: RowLexerOutput) -> bool {
    match t {
        RowLexerOutput::Digit(n) => n <= 9,
        RowLexerOutput::Piece(_) => true,
    }
}

pub open spec fn short_tokens(toks: Seq<RowLexerOutput>) -> bool {
    forall|i: int| 0 <= i < toks.len() ==> short_token(#[trigger] toks[i])
}

proof fn lemma_digit_char(d: int)
    requires
        0 <= d < 10,
    ensures
        is_digit(digit_char(d)),
        digit_value(digit_char(d)) == d,
        ascii_upper(digit_char(d)) == digit_char(d),
        decimal(d as nat) == seq![digit_char(d)],
{
}

/// The texts of the pieces, letter by letter.
proof fn lemma_piece_text(p: Piece)
    ensures
        piece_text(p) == match (p.kind, p.color) {
            (PieceKind::Pawn, Color::White) => seq!['p'],
            (PieceKind::Bishop, Color::White) => seq!['b'],
            (PieceKind::Rook, Color::White) => seq!['r'],
            (PieceKind::King, Color::White) => seq!['k'],
            (PieceKind::PromotedPawn, Color::White) => seq!['p', '+'],
            (PieceKind::Pawn, Color::Black) => seq!['P'],
            (PieceKind::Bishop, Color::Black) => seq!['B'],
            (PieceKind::Rook, Color::Black) => seq!['R'],
            (PieceKind::King, Color::Black) => seq!['K'],
            (PieceKind::PromotedPawn, Color::Black) => seq!['P', '+'],
        },
{
    let k = kind_text(p.kind);
    assert(upper(k) =~= k.map_values(|c: char| ascii_upper(c)));
    match p.kind {
        PieceKind::Pawn => assert(upper(seq!['p']) =~= seq!['P']),
        PieceKind::Bishop => assert(upper(seq!['b']) =~= seq!['B']),
        PieceKind::Rook => assert(upper(seq!['r']) =~= seq!['R']),
        PieceKind::King => assert(upper(seq!['k']) =~= seq!['K']),
        PieceKind::PromotedPawn => assert(upper(seq!['p', '+']) =~= seq!['P', '+']),
    }
}

/// The text of a short token is not empty, does not start with `+`, and
/// holds no `/` or space.
proof fn lemma_token_text_shape(t: RowLexerOutput)
    requires
        short_token(t),
    ensures
        token_text(t).len() > 0,
        token_text(t)[0] != '+',
        !holds_char(token_text(t), '/'),
        !holds_char(token_text(t), ' '),
{
    match t {
        RowLexerOutput::Digit(n) => lemma_digit_char(n as int),
        RowLexerOutput::Piece(p) => lemma_piece_text(p),
    }
}

/// Lexing a short token's text gives that token back.
proof fn lemma_lex_token(t: RowLexerOutput)
    requires
        short_token(t),
    ensures
        lexed_row(token_text(t)) == seq![t],
{
    let s = token_text(t);
    match t {
        RowLexerOutput::Digit(n) => {
            lemma_digit_char(n as int);
            assert(s.skip(1) =~= Seq::<char>::empty());
        },
        RowLexerOutput::Piece(p) => {
            lemma_piece_text(p);
            assert(piece_token_text(s) =~= s);
            assert(piece_of(s) == Some(p));
            if s.len() == 2 {
                let r = s.skip(1);
                assert(r =~= seq!['+']);
                assert(r.skip(1) =~= Seq::<char>::empty());
                assert(lexed_row(r) == lexed_row(r.skip(1)));
            } else {
                assert(s.skip(1) =~= Seq::<char>::empty());
            }
        },
    }
    assert(lexed_row(Seq::<char>::empty()) == Seq::<RowLexerOutput>::empty());
    assert(seq![t] + Seq::<RowLexerOutput>::empty() =~= seq![t]);
}

/// The lexer reads two texts one after the other, unless the second
/// starts with a `+` that would join the first one's last letter.
proof fn lemma_lexed_row_concat(a: Seq<char>, b: Seq<char>)
    requires
        b.len() == 0 || b[0] != '+',
    ensures
        lexed_row(a + b) == lexed_row(a) + lexed_row(b),
    decreases a.len(),
{
    if a.len() == 0 {
        assert(a + b =~= b);
        assert(lexed_row(a) + lexed_row(b) =~= lexed_row(b));
    } else {
        let s = a + b;
        lemma_lexed_row_concat(a.skip(1), b);
        assert(s.skip(1) =~= a.skip(1) + b);
        assert(s[0] == a[0]);
        assert(piece_token_text(s) =~= piece_token_text(a));
        assert(lexed_row(s) =~= lexed_row(a) + lexed_row(b));
    }
}

/// Lexing the text of short tokens gives the tokens back.
proof fn lemma_lex_tokens(toks: Seq<RowLexerOutput>)
    requires
        short_tokens(toks),
    ensures
        lexed_row(tokens_text(toks)) == toks,
        !holds_char(tokens_text(toks), '/'),
        !holds_char(tokens_text(toks), ' '),
        tokens_text(toks).len() == 0 || tokens_text(toks)[0] != '+',
    decreases toks.len(),
{
    if toks.len() == 0 {
        assert(tokens_text(toks) == Seq::<char>::empty());
        assert(lexed_row(Seq::<char>::empty()) == Seq::<RowLexerOutput>::empty());
        assert(toks =~= Seq::<RowLexerOutput>::empty());
    } else {
        let rest = toks.skip(1);
        assert(short_tokens(rest)) by {
            assert forall|i: int| 0 <= i < rest.len() implies short_token(#[trigger] rest[i]) by {
                assert(rest[i] == toks[i + 1]);
            }
        }
        assert(short_token(toks[0]));
        lemma_lex_tokens(rest);
        lemma_token_text_shape(toks[0]);
        lemma_lex_token(toks[0]);
        let a = token_text(toks[0]);
        let b = tokens_text(rest);
        lemma_lexed_row_concat(a, b);
        assert(seq![toks[0]] + rest =~= toks);
        assert forall|sep: char| sep == '/' || sep == ' ' implies !holds_char(a + b, sep) by {
            if holds_char(a + b, sep) {
                let i = choose|i: int| 0 <= i < (a + b).len() && (a + b)[i] == sep;
                if i < a.len() {
                    assert(a[i] == sep);
                } else {
                    assert(b[i - a.len()] == sep);
                }
            }
        }
        assert((a + b)[0] == a[0]);
    }
}

/// The runs that a row of `run + cells.len()` squares is written with are
/// no longer than the row.
proof fn lemma_row_tokens_short(cells: Seq<Option<Piece>>, run: nat)
    requires
        run + cells.len() <= 9,
    ensures
        short_tokens(row_tokens(cells, run)),
    decreases cells.len(),
{
    let toks = row_tokens(cells, run);
    if cells.len() > 0 {
        match cells[0] {
            None => lemma_row_tokens_short(cells.skip(1), run + 1),
            Some(p) => {
                lemma_row_tokens_short(cells.skip(1), 0);
                let pending = if run > 0 {
                    seq![RowLexerOutput::Digit(run as usize)]
                } else {
                    Seq::empty()
                };
                let head = pending + seq![RowLexerOutput::Piece(p)];
                let tail = row_tokens(cells.skip(1), 0);
                assert forall|i: int| 0 <= i < toks.len() implies short_token(#[trigger] toks[i]) by {
                    if i >= head.len() {
                        assert(toks[i] == tail[i - head.len()]);
                    }
                }
            },
        }
    }
}

/// `b` with the pieces of `cells` written from square `start` on; the empty
/// cells leave their squares as they are.
pub open spec fn overlay(b: Seq<Option<Piece>>, start: int, cells: Seq<Option<Piece>>) -> Seq<
    Option<Piece>,
> {
    Seq::new(
        b.len(),
        |i: int|
            if start <= i < start + cells.len() && cells[i - start] is Some {
                cells[i - start]
            } else {
                b[i]
            },
    )
}

proof fn lemma_placed_digit(x: Seq<RowLexerOutput>, d: usize, b: Seq<Option<Piece>>, c: int)
    ensures
        placed(seq![RowLexerOutput::Digit(d)] + x, b, c) == placed(x, b, c + d),
{
    let s = seq![RowLexerOutput::Digit(d)] + x;
    assert(s.skip(1) =~= x);
}

proof fn lemma_placed_piece(x: Seq<RowLexerOutput>, p: Piece, b: Seq<Option<Piece>>, c: int)
    requires
        0 <= c < b.len(),
    ensures
        placed(seq![RowLexerOutput::Piece(p)] + x, b, c) == placed(x, b.update(c, Some(p)), c + 1),
{
    let s = seq![RowLexerOutput::Piece(p)] + x;
    assert(s.skip(1) =~= x);
}

/// Placing the tokens of a written row, with `run` empty squares pending,
/// writes the row's pieces and moves the cursor past the row.
proof fn lemma_place_row(
    cells: Seq<Option<Piece>>,
    run: nat,
    rest: Seq<RowLexerOutput>,
    b: Seq<Option<Piece>>,
    cur: int,
)
    requires
        0 <= cur,
        cur + run + cells.len() <= b.len(),
        b.len() <= 12,
    ensures
        placed(row_tokens(cells, run) + rest, b, cur) == placed(
            rest,
            overlay(b, cur + run, cells),
            cur + run + cells.len(),
        ),
    decreases cells.len(),
{
    if cells.len() == 0 {
        assert(overlay(b, cur + run, cells) =~= b);
        if run > 0 {
            lemma_placed_digit(rest, run as usize, b, cur);
        } else {
            assert(row_tokens(cells, run) + rest =~= rest);
        }
    } else {
        match cells[0] {
            None => {
                lemma_place_row(cells.skip(1), run + 1, rest, b, cur);
                assert(overlay(b, cur + run + 1, cells.skip(1)) =~= overlay(b, cur + run, cells));
            },
            Some(p) => {
                let tail = row_tokens(cells.skip(1), 0);
                let b1 = b.update(cur + run, Some(p));
                lemma_place_row(cells.skip(1), 0, rest, b1, cur + run + 1);
                lemma_placed_piece(tail + rest, p, b, cur + run);
                assert(overlay(b1, cur + run + 1, cells.skip(1)) =~= overlay(b, cur + run, cells));
                if run > 0 {
                    let d = seq![RowLexerOutput::Digit(run as usize)];
                    assert(row_tokens(cells, run) + rest =~= d + (seq![RowLexerOutput::Piece(p)] + (
                    tail + rest)));
                    lemma_placed_digit(
                        seq![RowLexerOutput::Piece(p)] + (tail + rest),
                        run as usize,
                        b,
                        cur,
                    );
                } else {
                    assert(row_tokens(cells, run) + rest =~= seq![RowLexerOutput::Piece(p)] + (tail
                        + rest));
                }
            },
        }
    }
}

/// A written row is read back as its own tokens, and holds no `/` or space.
proof fn lemma_row_text(b: Seq<Option<Piece>>, row: int)
    requires
        b.len() == 12,
        0 <= row < 4,
    ensures
        lexed_row(row_text(b, row)) == row_tokens(row_cells(b, row), 0),
        short_tokens(row_tokens(row_cells(b, row), 0)),
        !holds_char(row_text(b, row), '/'),
        !holds_char(row_text(b, row), ' '),
{
    lemma_row_tokens_short(row_cells(b, row), 0);
    lemma_lex_tokens(row_tokens(row_cells(b, row), 0));
}

/// Reading a written board gives its squares back.
pub proof fn lemma_board_round_trip(board: Board)
    ensures
        parsed_board(board_text(board@)) == Ok::<Seq<Option<Piece>>, crate::parser::ParseError>(
            board@,
        ),
{
    let b = board@;
    let r0 = row_text(b, 0);
    let r1 = row_text(b, 1);
    let r2 = row_text(b, 2);
    let r3 = row_text(b, 3);
    lemma_row_text(b, 0);
    lemma_row_text(b, 1);
    lemma_row_text(b, 2);
    lemma_row_text(b, 3);
    let x1 = r0 + seq!['/'] + r1;
    let x2 = x1 + seq!['/'] + r2;
    lemma_split_single(r0, '/');
    lemma_split_single(r1, '/');
    lemma_split_single(r2, '/');
    lemma_split_single(r3, '/');
    lemma_split_join(r0, r1, '/');
    lemma_split_join(x1, r2, '/');
    lemma_split_join(x2, r3, '/');
    let rows = split(board_text(b), '/');
    assert(rows =~= seq![r0, r1, r2, r3]);
    let t0 = row_tokens(row_cells(b, 0), 0);
    let t1 = row_tokens(row_cells(b, 1), 0);
    let t2 = row_tokens(row_cells(b, 2), 0);
    let t3 = row_tokens(row_cells(b, 3), 0);
    assert(lexed_rows(Seq::<Seq<char>>::empty()) == Seq::<RowLexerOutput>::empty());
    assert(seq![r0].drop_last() =~= Seq::<Seq<char>>::empty());
    assert(lexed_rows(seq![r0]) =~= t0);
    assert(seq![r0, r1].drop_last() =~= seq![r0]);
    assert(lexed_rows(seq![r0, r1]) =~= t0 + t1);
    assert(seq![r0, r1, r2].drop_last() =~= seq![r0, r1]);
    assert(lexed_rows(seq![r0, r1, r2]) =~= t0 + t1 + t2);
    assert(seq![r0, r1, r2, r3].drop_last() =~= seq![r0, r1, r2]);
    assert(lexed_rows(rows) =~= t0 + (t1 + (t2 + (t3 + Seq::empty()))));
    let e = empty_squares();
    let e1 = overlay(e, 0, row_cells(b, 0));
    let e2 = overlay(e1, 3, row_cells(b, 1));
    let e3 = overlay(e2, 6, row_cells(b, 2));
    let e4 = overlay(e3, 9, row_cells(b, 3));
    lemma_place_row(row_cells(b, 0), 0, t1 + (t2 + (t3 + Seq::empty())), e, 0);
    lemma_place_row(row_cells(b, 1), 0, t2 + (t3 + Seq::empty()), e1, 3);
    lemma_place_row(row_cells(b, 2), 0, t3 + Seq::empty(), e2, 6);
    lemma_place_row(row_cells(b, 3), 0, Seq::empty(), e3, 9);
    assert(e4 =~= b);
}

/// A hand whose every entry holds a count from 1 to 9.
pub open spec fn hand_in_range(h: Hand) -> bool {
    forall|k: HandPiece| #[trigger] h.entry(k) is Some ==> 1 <= h.entry(k)->0 <= 9
}

/// The letter of a hand kind in the case of `c`.
spec fn hand_letter_char(k: HandPiece, c: Color) -> char {
    match (k, c) {
        (HandPiece::Pawn, Color::White) => 'p',
        (HandPiece::Bishop, Color::White) => 'b',
        (HandPiece::Rook, Color::White) => 'r',
        (HandPiece::Pawn, Color::Black) => 'P',
        (HandPiece::Bishop, Color::Black) => 'B',
        (HandPiece::Rook, Color::Black) => 'R',
    }
}

/// One hand entry as written for color `c`.
#[verifier::opaque]
spec fn entry_text(k: HandPiece, e: Option<usize>, c: Color) -> Seq<char> {
    match c {
        Color::Black => upper(count_text(k, e)),
        Color::White => count_text(k, e),
    }
}

/// The hand token that one written entry reads back as.
spec fn entry_tokens(k: HandPiece, e: Option<usize>, c: Color) -> Seq<HandLexerOutput> {
    match e {
        Some(n) => if n >= 1 {
            seq![HandLexerOutput { piece: k, color: c, count: n }]
        } else {
            Seq::empty()
        },
        None => Seq::empty(),
    }
}

spec fn entry_in_range(e: Option<usize>) -> bool {
    e is Some ==> 1 <= e->0 <= 9
}

/// Empty, or starting with a character other than a digit.
spec fn no_digit_first(s: Seq<char>) -> bool {
    s.len() == 0 || !is_digit(s[0])
}

proof fn lemma_upper_concat(a: Seq<char>, b: Seq<char>)
    ensures
        upper(a + b) == upper(a) + upper(b),
{
    assert(upper(a + b) =~= upper(a) + upper(b));
}

proof fn lemma_no_char_concat(a: Seq<char>, b: Seq<char>, c: char)
    requires
        !holds_char(a, c),
        !holds_char(b, c),
    ensures
        !holds_char(a + b, c),
{
    if holds_char(a + b, c) {
        let i = choose|i: int| 0 <= i < (a + b).len() && (a + b)[i] == c;
        if i < a.len() {
            assert(a[i] == c);
        } else {
            assert(b[i - a.len()] == c);
        }
    }
}

/// A written entry: nothing, the bare letter, or the letter and one digit.
proof fn lemma_entry_text(k: HandPiece, e: Option<usize>, c: Color)
    requires
        entry_in_range(e),
    ensures
        hand_letter(hand_letter_char(k, c)) == Some((k, c)),
        e is None ==> entry_text(k, e, c) == Seq::<char>::empty(),
        e == Some(1usize) ==> entry_text(k, e, c) == seq![hand_letter_char(k, c)],
        e is Some && e->0 > 1 ==> entry_text(k, e, c) == seq![
            hand_letter_char(k, c),
            digit_char(e->0 as int),
        ],
        !holds_char(entry_text(k, e, c), ' '),
        !holds_char(entry_text(k, e, c), '-'),
{
    reveal(entry_text);
    let t = entry_text(k, e, c);
    if let Some(n) = e {
        lemma_digit_char(n as int);
        let l = hand_piece_text(k);
        if n == 1 {
            assert(upper(l) =~= seq![hand_letter_char(k, Color::Black)]);
        } else {
            let d = digit_char(n as int);
            assert(count_text(k, e) =~= l + seq![d]);
            assert(upper(l + seq![d]) =~= seq![hand_letter_char(k, Color::Black), d]);
            assert(count_text(k, e) =~= seq![hand_letter_char(k, Color::White), d]);
        }
    } else {
        assert(upper(Seq::<char>::empty()) =~= Seq::<char>::empty());
    }
}

/// One written entry in front of `rest` reads back as its token in front
/// of what `rest` reads as.
proof fn lemma_lex_entry(k: HandPiece, e: Option<usize>, c: Color, rest: Seq<char>)
    requires
        entry_in_range(e),
        no_digit_first(rest),
    ensures
        lexed_hand(entry_text(k, e, c) + rest) == prepend(entry_tokens(k, e, c), lexed_hand(rest)),
        no_digit_first(entry_text(k, e, c) + rest),
{
    lemma_entry_text(k, e, c);
    let t = entry_text(k, e, c);
    let s = t + rest;
    let l = hand_letter_char(k, c);
    if let Some(n) = e {
        lemma_digit_char(n as int);
        let tok = HandLexerOutput { piece: k, color: c, count: n };
        assert(s[0] == l);
        if n == 1 {
            assert(s.skip(1) =~= rest);
        } else {
            let d = digit_char(n as int);
            assert(s[1] == d);
            assert(s.skip(1)[0] == d);
            assert(s.skip(1).skip(1) =~= rest);
            assert(lexed_hand(s.skip(1)) == lexed_hand(rest));
        }
        assert(lexed_hand(s) == prepend(seq![tok], lexed_hand(rest)));
    } else {
        assert(s =~= rest);
        match lexed_hand(rest) {
            Some(r) => assert(Seq::<HandLexerOutput>::empty() + r =~= r),
            None => {},
        }
    }
}

/// A hand as written for color `c`, entry by entry.
spec fn side_text(h: Hand, c: Color) -> Seq<char> {
    entry_text(HandPiece::Pawn, h.pawn, c) + entry_text(HandPiece::Bishop, h.bishop, c)
        + entry_text(HandPiece::Rook, h.rook, c)
}

/// The tokens that a hand written for color `c` reads back as.
spec fn side_tokens(h: Hand, c: Color) -> Seq<HandLexerOutput> {
    entry_tokens(HandPiece::Pawn, h.pawn, c) + entry_tokens(HandPiece::Bishop, h.bishop, c)
        + entry_tokens(HandPiece::Rook, h.rook, c)
}

proof fn lemma_prepend_prepend<T>(a: Seq<T>, b: Seq<T>, o: Option<Seq<T>>)
    ensures
        prepend(a, prepend(b, o)) == prepend(a + b, o),
{
    match o {
        Some(r) => assert(a + (b + r) =~= a + b + r),
        None => {},
    }
}

proof fn lemma_lex_side(h: Hand, c: Color, rest: Seq<char>)
    requires
        hand_in_range(h),
        no_digit_first(rest),
    ensures
        lexed_hand(side_text(h, c) + rest) == prepend(side_tokens(h, c), lexed_hand(rest)),
        no_digit_first(side_text(h, c) + rest),
{
    assert(h.entry(HandPiece::Pawn) == h.pawn);
    assert(h.entry(HandPiece::Bishop) == h.bishop);
    assert(h.entry(HandPiece::Rook) == h.rook);
    let tp = entry_text(HandPiece::Pawn, h.pawn, c);
    let tb = entry_text(HandPiece::Bishop, h.bishop, c);
    let tr = entry_text(HandPiece::Rook, h.rook, c);
    let kp = entry_tokens(HandPiece::Pawn, h.pawn, c);
    let kb = entry_tokens(HandPiece::Bishop, h.bishop, c);
    let kr = entry_tokens(HandPiece::Rook, h.rook, c);
    lemma_lex_entry(HandPiece::Rook, h.rook, c, rest);
    lemma_lex_entry(HandPiece::Bishop, h.bishop, c, tr + rest);
    lemma_lex_entry(HandPiece::Pawn, h.pawn, c, tb + (tr + rest));
    assert(side_text(h, c) + rest =~= tp + (tb + (tr + rest)));
    lemma_prepend_prepend(kb, kr, lexed_hand(rest));
    lemma_prepend_prepend(kp, kb + kr, lexed_hand(rest));
    assert(kp + (kb + kr) =~= side_tokens(h, c));
}

proof fn lemma_side_shape(h: Hand, c: Color)
    requires
        hand_in_range(h),
    ensures
        !holds_char(side_text(h, c), ' '),
        !holds_char(side_text(h, c), '-'),
        side_text(h, c).len() == 0 ==> h == empty_hand(),
{
    assert(h.entry(HandPiece::Pawn) == h.pawn);
    assert(h.entry(HandPiece::Bishop) == h.bishop);
    assert(h.entry(HandPiece::Rook) == h.rook);
    let tp = entry_text(HandPiece::Pawn, h.pawn, c);
    let tb = entry_text(HandPiece::Bishop, h.bishop, c);
    let tr = entry_text(HandPiece::Rook, h.rook, c);
    lemma_entry_text(HandPiece::Pawn, h.pawn, c);
    lemma_entry_text(HandPiece::Bishop, h.bishop, c);
    lemma_entry_text(HandPiece::Rook, h.rook, c);
    lemma_no_char_concat(tp, tb, ' ');
    lemma_no_char_concat(tp + tb, tr, ' ');
    lemma_no_char_concat(tp, tb, '-');
    lemma_no_char_concat(tp + tb, tr, '-');
}

proof fn lemma_side_text(h: Hand)
    ensures
        side_text(h, Color::Black) == upper(hand_text(h)),
        side_text(h, Color::White) == hand_text(h),
{
    reveal(entry_text);
    let cp = count_text(HandPiece::Pawn, h.pawn);
    let cb = count_text(HandPiece::Bishop, h.bishop);
    let cr = count_text(HandPiece::Rook, h.rook);
    lemma_upper_concat(cp, cb);
    lemma_upper_concat(cp + cb, cr);
}

/// The hands with the hand of `c` replaced by `h`.
spec fn with_side(hs: Hands, c: Color, h: Hand) -> Hands {
    match c {
        Color::Black => Hands { black: h, ..hs },
        Color::White => Hands { white: h, ..hs },
    }
}

proof fn lemma_gather_entry(a: Seq<HandLexerOutput>, k: HandPiece, e: Option<usize>, c: Color)
    requires
        entry_in_range(e),
        gathered(a).of(c).entry(k) is None,
    ensures
        gathered(a + entry_tokens(k, e, c)) == with_side(
            gathered(a),
            c,
            gathered(a).of(c).with_entry(k, e),
        ),
{
    let g = gathered(a);
    let t = entry_tokens(k, e, c);
    if let Some(n) = e {
        assert((a + t).drop_last() =~= a);
        assert((a + t).last() == t[0]);
    } else {
        assert(a + t =~= a);
    }
}

proof fn lemma_gather_side(a: Seq<HandLexerOutput>, h: Hand, c: Color)
    requires
        hand_in_range(h),
        gathered(a).of(c) == empty_hand(),
    ensures
        gathered(a + side_tokens(h, c)) == with_side(gathered(a), c, h),
{
    assert(h.entry(HandPiece::Pawn) == h.pawn);
    assert(h.entry(HandPiece::Bishop) == h.bishop);
    assert(h.entry(HandPiece::Rook) == h.rook);
    let a1 = a + entry_tokens(HandPiece::Pawn, h.pawn, c);
    let a2 = a1 + entry_tokens(HandPiece::Bishop, h.bishop, c);
    let a3 = a2 + entry_tokens(HandPiece::Rook, h.rook, c);
    lemma_gather_entry(a, HandPiece::Pawn, h.pawn, c);
    lemma_gather_entry(a1, HandPiece::Bishop, h.bishop, c);
    lemma_gather_entry(a2, HandPiece::Rook, h.rook, c);
    assert(a + side_tokens(h, c) =~= a3);
}

/// Reading the written hands of both players gives them back.
proof fn lemma_hands_round_trip(black: Hand, white: Hand)
    requires
        hand_in_range(black),
        hand_in_range(white),
    ensures
        hands_text(black, white).len() > 0 ==> hands_field_of(hands_text(black, white)) == Some(
            Hands { black, white },
        ),
        hands_text(black, white).len() == 0 ==> black == empty_hand() && white == empty_hand(),
        !holds_char(hands_text(black, white), ' '),
{
    let e = Seq::<char>::empty();
    let sb = side_text(black, Color::Black);
    let sw = side_text(white, Color::White);
    lemma_side_text(black);
    lemma_side_text(white);
    lemma_lex_side(white, Color::White, e);
    lemma_lex_side(black, Color::Black, sw + e);
    lemma_side_shape(white, Color::White);
    lemma_side_shape(black, Color::Black);
    assert(sw + e =~= sw);
    let h = hands_text(black, white);
    assert(h == sb + sw);
    lemma_no_char_concat(sb, sw, ' ');
    lemma_no_char_concat(sb, sw, '-');
    assert(lexed_hand(e) == Some(Seq::<HandLexerOutput>::empty()));
    let tb = side_tokens(black, Color::Black);
    let tw = side_tokens(white, Color::White);
    assert(lexed_hand(h) == Some(tb + tw)) by {
        assert(tw + Seq::<HandLexerOutput>::empty() =~= tw);
    }
    if h.len() > 0 {
        assert(h[0] != '-');
        let none = Seq::<HandLexerOutput>::empty();
        assert(gathered(none) == no_hands());
        lemma_gather_side(none, black, Color::Black);
        assert(none + tb =~= tb);
        lemma_gather_side(tb, white, Color::White);
    }
}

/// Writing a position out and reading the text back gives the same
/// position, provided each hand entry holds a count from 1 to 9: an entry
/// of zero is written as nothing and reads back as no entry, and the hand
/// lexer reads a single count digit, so a count over 9 reads back as its
/// first digit.
pub proof fn lemma_position_round_trip(p: Position)
    requires
        hand_in_range(p.black_hand),
        hand_in_range(p.white_hand),
    ensures
        parsed_position(position_text(p@)) == Ok::<PositionView, ParseError>(p@),
{
    let v = p@;
    let b = v.board;
    let bt = board_text(b);
    let ct = color_text(v.to_play);
    let hh = hands_text(v.black_hand, v.white_hand);
    let hf = if hh.len() == 0 {
        seq!['-']
    } else {
        hh
    };
    lemma_board_round_trip(p.board);
    lemma_hands_round_trip(v.black_hand, v.white_hand);
    lemma_row_text(b, 0);
    lemma_row_text(b, 1);
    lemma_row_text(b, 2);
    lemma_row_text(b, 3);
    let sl = seq!['/'];
    assert(!holds_char(sl, ' ')) by {
        assert(sl[0] == '/');
    }
    lemma_no_char_concat(row_text(b, 0), sl, ' ');
    lemma_no_char_concat(row_text(b, 0) + sl, row_text(b, 1), ' ');
    lemma_no_char_concat(row_text(b, 0) + sl + row_text(b, 1), sl, ' ');
    lemma_no_char_concat(row_text(b, 0) + sl + row_text(b, 1) + sl, row_text(b, 2), ' ');
    lemma_no_char_concat(row_text(b, 0) + sl + row_text(b, 1) + sl + row_text(b, 2), sl, ' ');
    lemma_no_char_concat(
        row_text(b, 0) + sl + row_text(b, 1) + sl + row_text(b, 2) + sl,
        row_text(b, 3),
        ' ',
    );
    assert(!holds_char(ct, ' ')) by {
        assert(ct[0] != ' ');
    }
    assert(!holds_char(hf, ' ')) by {
        if hh.len() == 0 {
            assert(hf[0] == '-');
        }
    }
    lemma_split_single(bt, ' ');
    lemma_split_single(ct, ' ');
    lemma_split_single(hf, ' ');
    lemma_split_join(bt, ct, ' ');
    lemma_split_join(bt + seq![' '] + ct, hf, ' ');
    let fields = split(position_text(v), ' ');
    assert(fields =~= seq![bt, ct, hf]);
    assert(color_of(ct) == Some(v.to_play));
}

/// A board text that does not split into exactly four rows on `/` is
/// rejected for its row count, whatever the rows hold.
pub proof fn lemma_board_needs_four_rows(s: Seq<char>)
    requires
        split(s, '/').len() != 4,
    ensures
        parsed_board(s) == Err::<Seq<Option<Piece>>, ParseError>(ParseError::InvalidRowCount),
{
}

} // verus!
