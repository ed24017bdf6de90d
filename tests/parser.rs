use lion_notation::{
    lex_hand, lex_row, parse_board, parse_color, parse_hand_piece, parse_hands, parse_piece,
    Color, Hand, HandLexerOutput, HandPiece, Piece, PieceKind, ALL_INDEXES,
};
use lion_notation::RowLexerOutput as Token;

fn white(kind: PieceKind) -> Piece {
    Piece::new(kind, Color::White)
}

fn black(kind: PieceKind) -> Piece {
    Piece::new(kind, Color::Black)
}

fn token(piece: HandPiece, color: Color, count: usize) -> HandLexerOutput {
    HandLexerOutput {
        piece,
        color,
        count,
    }
}

#[test]
fn test_parse_color() {
    let inputs = [
        ("b", Some(Color::Black)),
        ("w", Some(Color::White)),
        ("", None),
        ("!", None),
    ];

    for (string, expected_result) in inputs {
        let result = parse_color(string);
        assert_eq!(result, expected_result);
    }
}

#[test]
fn test_parse_piece_correct() {
    let inputs = [
        ("p", white(PieceKind::Pawn)),
        ("b", white(PieceKind::Bishop)),
        ("r", white(PieceKind::Rook)),
        ("k", white(PieceKind::King)),
        ("p+", white(PieceKind::PromotedPawn)),
        ("P", black(PieceKind::Pawn)),
        ("B", black(PieceKind::Bishop)),
        ("R", black(PieceKind::Rook)),
        ("K", black(PieceKind::King)),
        ("P+", black(PieceKind::PromotedPawn)),
    ];

    for (string, expected_piece) in inputs {
        let result = parse_piece(string);
        assert_eq!(result, Some(expected_piece));
    }
}

#[test]
fn test_parse_piece_incorrect() {
    let inputs = ["", "x", "123", "n", "g", "s"];

    for string in inputs {
        let result = parse_piece(string);
        assert_eq!(result, None);
    }
}

#[test]
fn parse_piece_rejects_other_promotions() {
    for string in ["k+", "b+", "R+", "p++", "+p", "pp"] {
        assert_eq!(parse_piece(string), None);
    }
}

#[test]
fn test_parse_invalid_board() {
    let input = "3/3/3";

    let result_board = parse_board(input);

    assert!(result_board.is_none());
}

#[test]
fn board_with_five_rows_fails() {
    assert!(parse_board("3/3/3/3/3").is_none());
    assert!(parse_board("").is_none());
    assert!(parse_board("ppp").is_none());
}

#[test]
fn test_parse_empty_board() {
    let input = "3/3/3/3";

    let result_board = parse_board(input).unwrap();

    for index in ALL_INDEXES {
        let piece = result_board.0[index];
        assert!(piece.is_none());
    }
}

#[test]
fn test_parse_starting_position() {
    let input = "bkr/1p1/1P1/RKB";

    let result_board = parse_board(input).unwrap();

    assert_eq!(result_board.0[0], Some(white(PieceKind::Bishop)));
    assert_eq!(result_board.0[1], Some(white(PieceKind::King)));
    assert_eq!(result_board.0[2], Some(white(PieceKind::Rook)));
    assert_eq!(result_board.0[3], None);
    assert_eq!(result_board.0[4], Some(white(PieceKind::Pawn)));
    assert_eq!(result_board.0[5], None);
    assert_eq!(result_board.0[6], None);
    assert_eq!(result_board.0[7], Some(black(PieceKind::Pawn)));
    assert_eq!(result_board.0[8], None);
    assert_eq!(result_board.0[9], Some(black(PieceKind::Rook)));
    assert_eq!(result_board.0[10], Some(black(PieceKind::King)));
    assert_eq!(result_board.0[11], Some(black(PieceKind::Bishop)));
}

#[test]
fn test_parse_promoted_pieces() {
    let input = "p+2/1p+1/1P+1/2P+";

    let result_board = parse_board(input).unwrap();

    assert_eq!(result_board.0[0], Some(white(PieceKind::PromotedPawn)));
    assert_eq!(result_board.0[1], None);
    assert_eq!(result_board.0[2], None);

    assert_eq!(result_board.0[3], None);
    assert_eq!(result_board.0[4], Some(white(PieceKind::PromotedPawn)));
    assert_eq!(result_board.0[5], None);

    assert_eq!(result_board.0[6], None);
    assert_eq!(result_board.0[7], Some(black(PieceKind::PromotedPawn)));
    assert_eq!(result_board.0[8], None);

    assert_eq!(result_board.0[9], None);
    assert_eq!(result_board.0[10], None);
    assert_eq!(result_board.0[11], Some(black(PieceKind::PromotedPawn)));
}

#[test]
fn overlong_row_spills_into_next_row() {
    let board = parse_board("pppp/2/3/3").unwrap();
    for i in 0..4 {
        assert_eq!(board.0[i], Some(white(PieceKind::Pawn)));
    }
    for i in 4..12 {
        assert_eq!(board.0[i], None);
    }
}

#[test]
fn short_rows_do_not_reset_the_cursor() {
    let board = parse_board("1/k/2/K").unwrap();
    assert_eq!(board.0[1], Some(white(PieceKind::King)));
    assert_eq!(board.0[4], Some(black(PieceKind::King)));
    assert_eq!(board.0[0], None);
    assert_eq!(board.0[3], None);
}

#[test]
fn piece_past_the_last_square_fails() {
    assert!(parse_board("3/3/3/3p").is_none());
    assert!(parse_board("9/3/3/k").is_none());
}

#[test]
fn runs_past_the_last_square_are_accepted() {
    let board = parse_board("3/3/3/9").unwrap();
    for i in 0..12 {
        assert_eq!(board.0[i], None);
    }
}

#[test]
fn unknown_row_letters_are_dropped() {
    let board = parse_board("xk+p/3/3/3").unwrap();
    assert_eq!(board.0[0], Some(white(PieceKind::Pawn)));
    assert_eq!(board.0[1], None);
}

#[test]
fn test_row_lexer() {
    let inputs = [
        (
            "rkb",
            vec![
                Token::Piece(white(PieceKind::Rook)),
                Token::Piece(white(PieceKind::King)),
                Token::Piece(white(PieceKind::Bishop)),
            ],
        ),
        ("3", vec![Token::Digit(3)]),
        ("1p1", vec![Token::Digit(1), Token::Piece(white(PieceKind::Pawn)), Token::Digit(1)]),
        (
            "P+p+p+",
            vec![
                Token::Piece(black(PieceKind::PromotedPawn)),
                Token::Piece(white(PieceKind::PromotedPawn)),
                Token::Piece(white(PieceKind::PromotedPawn)),
            ],
        ),
    ];

    for (string, expected_vec) in inputs {
        let result = lex_row(string);
        assert_eq!(result, expected_vec);
    }
}

#[test]
fn row_lexer_skips_stray_plus_and_unknown_letters() {
    assert_eq!(lex_row(""), vec![]);
    assert_eq!(lex_row("+"), vec![]);
    assert_eq!(lex_row("++2"), vec![Token::Digit(2)]);
    assert_eq!(lex_row("xk+p"), vec![Token::Piece(white(PieceKind::Pawn))]);
    assert_eq!(lex_row("K+0"), vec![Token::Digit(0)]);
    assert_eq!(
        lex_row("Pp+"),
        vec![
            Token::Piece(black(PieceKind::Pawn)),
            Token::Piece(white(PieceKind::PromotedPawn))
        ]
    );
}

#[test]
fn test_parse_hand_piece_correct() {
    let inputs = [
        ("p", HandPiece::Pawn),
        ("b", HandPiece::Bishop),
        ("r", HandPiece::Rook),
    ];

    for (string, expected_piece) in inputs {
        let result = parse_hand_piece(string);
        assert_eq!(result, Some(expected_piece));
    }
}

#[test]
fn test_parse_hand_piece_incorrect() {
    let inputs = ["", "x", "123", "n", "g", "s"];

    for string in inputs {
        let result = parse_hand_piece(string);
        assert_eq!(result, None);
    }
}

#[test]
fn parse_hand_piece_rejects_king_and_upper_case() {
    for string in ["k", "P", "p+", "pb"] {
        assert_eq!(parse_hand_piece(string), None);
    }
}

#[test]
fn test_hand_lexer_simple() {
    let inputs = [
        ("", vec![]),
        (
            "rbpRBP",
            vec![
                token(HandPiece::Rook, Color::White, 1),
                token(HandPiece::Bishop, Color::White, 1),
                token(HandPiece::Pawn, Color::White, 1),
                token(HandPiece::Rook, Color::Black, 1),
                token(HandPiece::Bishop, Color::Black, 1),
                token(HandPiece::Pawn, Color::Black, 1),
            ],
        ),
    ];

    for (string, expected) in inputs {
        let result = lex_hand(string);
        assert_eq!(result, Some(expected));
    }
}

#[test]
fn test_hand_lexer_simple_with_counts() {
    let inputs = [
        ("", vec![]),
        (
            "r2b2P2",
            vec![
                token(HandPiece::Rook, Color::White, 2),
                token(HandPiece::Bishop, Color::White, 2),
                token(HandPiece::Pawn, Color::Black, 2),
            ],
        ),
    ];

    for (string, expected) in inputs {
        let result = lex_hand(string);
        assert_eq!(result, Some(expected));
    }
}

#[test]
fn hand_lexer_digit_rules() {
    assert_eq!(lex_hand("7p"), Some(vec![token(HandPiece::Pawn, Color::White, 1)]));
    assert_eq!(lex_hand("p0"), Some(vec![token(HandPiece::Pawn, Color::White, 0)]));
    assert_eq!(lex_hand("R12"), Some(vec![token(HandPiece::Rook, Color::Black, 1)]));
}

#[test]
fn hand_lexer_fails_on_unknown_letter() {
    assert_eq!(lex_hand("x"), None);
    assert_eq!(lex_hand("pk"), None);
    assert_eq!(lex_hand("p+"), None);
    assert_eq!(lex_hand("-"), None);
    assert!(parse_hands("pK2").is_none());
}

#[test]
fn test_parse_hands_empty() {
    let input = "";

    let result = parse_hands(input).unwrap();

    assert_eq!(result.get(Color::Black), &Hand::new());
    assert_eq!(result.get(Color::White), &Hand::new());
}

#[test]
fn test_parse_hands_full() {
    let input = "pr2PB2";

    let result = parse_hands(input).unwrap();

    let black_hand = result.get(Color::Black);
    let white_hand = result.get(Color::White);

    assert_eq!(white_hand.get(HandPiece::Pawn), Some(1));
    assert_eq!(white_hand.get(HandPiece::Bishop), None);
    assert_eq!(white_hand.get(HandPiece::Rook), Some(2));

    assert_eq!(black_hand.get(HandPiece::Pawn), Some(1));
    assert_eq!(black_hand.get(HandPiece::Bishop), Some(2));
    assert_eq!(black_hand.get(HandPiece::Rook), None);
}

#[test]
fn parse_hands_with_counts() {
    let result = parse_hands("r2b2P2").unwrap();
    let white_hand = result.get(Color::White);
    let black_hand = result.get(Color::Black);
    assert_eq!(white_hand.get(HandPiece::Rook), Some(2));
    assert_eq!(white_hand.get(HandPiece::Bishop), Some(2));
    assert_eq!(white_hand.get(HandPiece::Pawn), None);
    assert_eq!(black_hand.get(HandPiece::Pawn), Some(2));
    assert_eq!(black_hand.get(HandPiece::Bishop), None);
    assert_eq!(black_hand.get(HandPiece::Rook), None);
}

#[test]
fn parse_hands_sums_repeated_entries() {
    let result = parse_hands("p2p3P0").unwrap();
    assert_eq!(result.white.get(HandPiece::Pawn), Some(5));
    assert_eq!(result.black.get(HandPiece::Pawn), Some(0));
    assert_eq!(result.black.get(HandPiece::Rook), None);
}
