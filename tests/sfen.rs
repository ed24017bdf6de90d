use lion_notation::{
    parse_board, parse_position, Board, Color, Hand, HandPiece, ParseError, Piece, PieceKind,
    Position, ALL_HAND_PIECES, BOARD_SIZE,
};

fn white(kind: PieceKind) -> Piece {
    Piece::new(kind, Color::White)
}

fn black(kind: PieceKind) -> Piece {
    Piece::new(kind, Color::Black)
}

fn hand(entries: &[(HandPiece, usize)]) -> Hand {
    let mut hand = Hand::new();
    for (piece, count) in entries {
        hand.insert(*piece, *count);
    }
    hand
}

#[test]
fn test_piece_kind() {
    let pieces = vec![
        PieceKind::Pawn,
        PieceKind::Bishop,
        PieceKind::Rook,
        PieceKind::King,
        PieceKind::PromotedPawn,
    ];
    let result: Vec<String> = pieces.iter().map(|piece| piece.sfen()).collect();

    assert_eq!(result, vec!["p", "b", "r", "k", "p+"]);
}

#[test]
fn test_color() {
    let colors = vec![Color::Black, Color::White];
    let result: Vec<String> = colors.iter().map(|color| color.sfen()).collect();

    assert_eq!(result, vec!["b", "w"]);
}

#[test]
fn test_piece() {
    let pieces = vec![
        black(PieceKind::Pawn),
        black(PieceKind::Bishop),
        black(PieceKind::Rook),
        black(PieceKind::King),
        black(PieceKind::PromotedPawn),
        white(PieceKind::Pawn),
        white(PieceKind::Bishop),
        white(PieceKind::Rook),
        white(PieceKind::King),
        white(PieceKind::PromotedPawn),
    ];
    let result: Vec<String> = pieces.iter().map(|piece| piece.sfen()).collect();

    assert_eq!(
        result,
        vec!["P", "B", "R", "K", "P+", "p", "b", "r", "k", "p+"],
    );
}

#[test]
fn test_handpiece() {
    let pieces = Vec::from(ALL_HAND_PIECES);
    let result: Vec<String> = pieces.iter().map(|piece| piece.sfen()).collect();

    assert_eq!(result, vec!["p", "b", "r"],);
}

#[test]
fn test_empty_board() {
    let board = Board([None; BOARD_SIZE]);
    let result = board.sfen();

    assert_eq!(result, "3/3/3/3");
}

#[test]
fn test_board_of_white_pawns() {
    let piece = Piece {
        kind: PieceKind::Pawn,
        color: Color::White,
    };
    let board = Board([Some(piece); BOARD_SIZE]);
    let result = board.sfen();

    assert_eq!(result, "ppp/ppp/ppp/ppp");
}

#[test]
fn test_board_with_many_gaps_and_pieces() {
    let board = Board([
        Some(white(PieceKind::Pawn)),
        None,
        Some(white(PieceKind::King)),
        Some(white(PieceKind::Bishop)),
        None,
        None,
        None,
        None,
        Some(black(PieceKind::Rook)),
        None,
        Some(black(PieceKind::PromotedPawn)),
        None,
    ]);
    let result = board.sfen();

    assert_eq!(result, "p1k/b2/2R/1P+1");
}

#[test]
fn empty_board_parses_and_writes_back() {
    let board = parse_board("3/3/3/3").unwrap();
    assert_eq!(board, Board::empty());
    assert_eq!(board.sfen(), "3/3/3/3");
}

#[test]
fn starting_board_parses_and_writes_back() {
    let board = parse_board("bkr/1p1/1P1/RKB").unwrap();
    assert_eq!(board.sfen(), "bkr/1p1/1P1/RKB");
    let board = parse_board("p1k/b2/2R/1P+1").unwrap();
    assert_eq!(board.sfen(), "p1k/b2/2R/1P+1");
}

#[test]
fn test_empty_hand() {
    let hand = Hand::new();
    let result = hand.sfen();

    assert_eq!(result, "");
}

#[test]
fn test_hand_all_one() {
    let hand = hand(&[
        (HandPiece::Bishop, 1),
        (HandPiece::Rook, 1),
        (HandPiece::Pawn, 1),
    ]);
    let result = hand.sfen();

    assert_eq!(result, "pbr");
}

#[test]
fn test_hand_all_two() {
    let hand = hand(&[
        (HandPiece::Bishop, 2),
        (HandPiece::Rook, 2),
        (HandPiece::Pawn, 2),
    ]);
    let result = hand.sfen();

    assert_eq!(result, "p2b2r2");
}

#[test]
fn test_hand_mixed() {
    let hand = hand(&[
        (HandPiece::Bishop, 0),
        (HandPiece::Rook, 1),
        (HandPiece::Pawn, 2),
    ]);
    let result = hand.sfen();

    assert_eq!(result, "p2r");
}

#[test]
fn hand_counts_over_nine_are_written_in_full() {
    let hand = hand(&[(HandPiece::Pawn, 12), (HandPiece::Rook, 305)]);
    assert_eq!(hand.sfen(), "p12r305");
}

fn starting_position() -> Position {
    let board = Board([
        Some(white(PieceKind::Rook)),
        Some(white(PieceKind::King)),
        Some(white(PieceKind::Bishop)),
        None,
        Some(white(PieceKind::Pawn)),
        None,
        None,
        Some(black(PieceKind::Pawn)),
        None,
        Some(black(PieceKind::Bishop)),
        Some(black(PieceKind::King)),
        Some(black(PieceKind::Rook)),
    ]);

    Position {
        board,
        to_play: Color::Black,
        black_hand: Hand::new(),
        white_hand: Hand::new(),
    }
}

fn position_with_hands() -> Position {
    let board = Board([
        None,
        Some(white(PieceKind::King)),
        None,
        None,
        None,
        None,
        None,
        None,
        None,
        None,
        Some(black(PieceKind::King)),
        Some(black(PieceKind::Rook)),
    ]);

    Position {
        board,
        to_play: Color::White,
        black_hand: hand(&[(HandPiece::Rook, 1), (HandPiece::Pawn, 2)]),
        white_hand: hand(&[(HandPiece::Bishop, 2)]),
    }
}

#[test]
fn test_position_starting() {
    let result = starting_position().sfen();

    assert_eq!(result, "rkb/1p1/1P1/BKR b -");
}

#[test]
fn test_position_with_hands() {
    let result = position_with_hands().sfen();

    assert_eq!(result, "1k1/3/3/1KR w P2Rb2");
}

#[test]
fn position_round_trip() {
    for position in [starting_position(), position_with_hands()] {
        let text = position.sfen();
        assert_eq!(parse_position(&text), Ok(position));
    }
}

#[test]
fn starting_position_text_round_trip() {
    let text = "rkb/1p1/1P1/BKR b -";
    let position = parse_position(text).unwrap();
    assert_eq!(position, starting_position());
    assert_eq!(position.sfen(), text);
}

#[test]
fn hands_text_round_trip() {
    let position = parse_position("3/3/3/3 w pr2PB2").unwrap();
    assert_eq!(position.white_hand.get(HandPiece::Pawn), Some(1));
    assert_eq!(position.white_hand.get(HandPiece::Rook), Some(2));
    assert_eq!(position.white_hand.get(HandPiece::Bishop), None);
    assert_eq!(position.black_hand.get(HandPiece::Pawn), Some(1));
    assert_eq!(position.black_hand.get(HandPiece::Bishop), Some(2));
    assert_eq!(position.black_hand.get(HandPiece::Rook), None);
    assert_eq!(position.sfen(), "3/3/3/3 w PB2pr2");
}

#[test]
fn zero_counts_do_not_survive_a_round_trip() {
    let mut position = starting_position();
    position.white_hand.insert(HandPiece::Rook, 0);
    let text = position.sfen();
    assert_eq!(text, "rkb/1p1/1P1/BKR b -");
    assert_eq!(parse_position(&text), Ok(starting_position()));
}

#[test]
fn position_errors() {
    assert_eq!(parse_position(""), Err(ParseError::InvalidFieldCount));
    assert_eq!(parse_position("3/3/3/3 b"), Err(ParseError::InvalidFieldCount));
    assert_eq!(parse_position("3/3/3/3  b -"), Err(ParseError::InvalidFieldCount));
    assert_eq!(parse_position("3/3/3 b -"), Err(ParseError::InvalidRowCount));
    assert_eq!(parse_position("3/3/3/3p b -"), Err(ParseError::SquareOutOfRange));
    assert_eq!(parse_position("3/3/3/3 x -"), Err(ParseError::UnknownSide));
    assert_eq!(parse_position("3/3/3/3 B -"), Err(ParseError::UnknownSide));
    assert_eq!(parse_position("3/3/3/3 b x"), Err(ParseError::UnknownHandPiece));
    assert_eq!(parse_position("3/3/3/3 b --"), Err(ParseError::UnknownHandPiece));
}

#[test]
fn position_board_error_comes_first() {
    assert_eq!(parse_position("3/3 x y"), Err(ParseError::InvalidRowCount));
}
