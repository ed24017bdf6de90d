use lion_notation::{
    rowcol2field, rowcol2index, Board, Color, GameState, Hand, Piece, PieceKind, Position,
    BOARD_SIZE,
};

fn points() -> [(usize, usize); 12] {
    [
        (0, 0),
        (0, 1),
        (0, 2),
        (1, 0),
        (1, 1),
        (1, 2),
        (2, 0),
        (2, 1),
        (2, 2),
        (3, 0),
        (3, 1),
        (3, 2),
    ]
}

#[test]
fn game_test_rowcol_conversion() {
    let results: Vec<usize> = points()
        .iter()
        .map(|(row, col)| rowcol2index(*row, *col))
        .collect();
    assert_eq!(results, (0..12).collect::<Vec<usize>>())
}

#[test]
fn board_test_rowcol_conversion() {
    let results: Vec<usize> = points()
        .iter()
        .map(|(row, col)| rowcol2field(*row, *col))
        .collect();
    assert_eq!(results, (0..12).collect::<Vec<usize>>())
}

#[test]
fn rowcol_last_square() {
    assert_eq!(rowcol2index(3, 2), 11);
    assert_eq!(rowcol2field(2, 1), 7);
}

#[test]
fn board_get_and_set() {
    let mut board = Board::empty();
    for i in 0..BOARD_SIZE {
        assert_eq!(board.get(i), None);
    }
    let rook = Piece::new(PieceKind::Rook, Color::Black);
    board.set(7, Some(rook));
    assert_eq!(board.get(7), Some(rook));
    assert_eq!(board.0[7], Some(rook));
    assert_eq!(board.get(6), None);
    board.set(7, None);
    assert_eq!(board, Board::empty());
}

#[test]
fn hand_add_creates_and_sums() {
    let mut hand = Hand::new();
    assert_eq!(hand.get(lion_notation::HandPiece::Rook), None);
    hand.add(lion_notation::HandPiece::Rook, 0);
    assert_eq!(hand.get(lion_notation::HandPiece::Rook), Some(0));
    hand.add(lion_notation::HandPiece::Rook, 2);
    hand.add(lion_notation::HandPiece::Rook, 3);
    assert_eq!(hand.get(lion_notation::HandPiece::Rook), Some(5));
    hand.insert(lion_notation::HandPiece::Rook, 1);
    assert_eq!(hand.get(lion_notation::HandPiece::Rook), Some(1));
    assert_eq!(hand.get(lion_notation::HandPiece::Pawn), None);
}

#[test]
fn game_state_keeps_history() {
    let first = Position {
        board: Board::empty(),
        to_play: Color::Black,
        black_hand: Hand::new(),
        white_hand: Hand::new(),
    };
    let mut second = first;
    second.to_play = Color::White;
    let mut third = second;
    third.board.set(0, Some(Piece::new(PieceKind::King, Color::White)));

    let mut game = GameState::new(first);
    assert!(game.previous_positions.is_empty());
    game.advance(second);
    game.advance(third);
    assert_eq!(game.current_position, third);
    assert_eq!(game.previous_positions, vec![first, second]);
}
