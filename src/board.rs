//! Board, hands, positions and the game history.
use vstd::prelude::*;

use crate::piece::{Color, HandPiece, Piece};

verus! {

pub const ROWS: usize = 4;

pub const COLS: usize = 3;

pub const BOARD_SIZE: usize = ROWS * COLS;

/// Every square index of the board, in order.
pub const ALL_INDEXES: [usize; BOARD_SIZE] = [0, 1, 2, 3, 4, 5, 6, 7, 8, 9, 10, 11];

/// Row-major square index of a row and a column.
pub open spec fn square_index(row: int, col: int) -> int {
    col + 3 * row
}

/// Square index of `(row, col)`: `col + 3 * row`.
pub fn rowcol2index(row: usize, col: usize) -> (r: usize)
    requires
        row < ROWS,
        col < COLS,
    ensures
        r == square_index(row as int, col as int),
        r < BOARD_SIZE,
{
    COLS * row + col
}

/// Square index of `(row, col)`: `col + 3 * row`.
pub fn rowcol2field(row: usize, col: usize) -> (r: usize)
    requires
        row < ROWS,
        col < COLS,
    ensures
        r == square_index(row as int, col as int),
        r < BOARD_SIZE,
{
    COLS * row + col
}

/// Twelve squares, four rows of three, row-major; `None` is an empty square.
#[derive(Debug, Clone, Copy, PartialEq, Eq)]
pub struct Board(pub [Option<Piece>; BOARD_SIZE]);

/// The squares of a board with no piece on it.
pub open spec fn empty_squares() -> Seq<Option<Piece>> {
    Seq::new(12, |i: int| None)
}

impl View for Board {
    type V = Seq<Option<Piece>>;

    open spec fn view(&self) -> Seq<Option<Piece>> {
        self.0@
    }
}

impl Board {
    /// A board with every square empty.
    pub fn empty() -> (r: Board)
        ensures
            r@ == empty_squares(),
    {
        let r = Board([None; BOARD_SIZE]);
        assert(r@ =~= empty_squares());
        r
    }

    /// What stands on square `index`.
    pub fn get(&self, index: usize) -> (r: Option<Piece>)
        requires
            index < BOARD_SIZE,
        ensures
            r == self@[index as int],
    {
        self.0[index]
    }

    /// Puts `square` on square `index`, leaving the others as they are.
    pub fn set(&mut self, index: usize, square: Option<Piece>)
        requires
            index < BOARD_SIZE,
        ensures
            final(self)@ == old(self)@.update(index as int, square),
    {
        self.0[index] = square;
    }
}

/// The pieces one player holds in hand: for each hand-eligible kind, a
/// count, or `None` where the kind has no entry. No entry counts as zero.
#[derive(Debug, Clone, Copy, PartialEq, Eq, Structural)]
pub struct Hand {
    pub pawn: Option<usize>,
    pub bishop: Option<usize>,
    pub rook: Option<usize>,
}

/// A hand with no entry.
pub open spec fn empty_hand() -> Hand {
    Hand { pawn: None, bishop: None, rook: None }
}

impl Hand {
    /// The entry for `piece`.
    pub open spec fn entry(self, piece: HandPiece) -> Option<usize> {
        match piece {
            HandPiece::Pawn => self.pawn,
            HandPiece::Bishop => self.bishop,
            HandPiece::Rook => self.rook,
        }
    }

    /// The hand with the entry for `piece` set to `e`.
    pub open spec fn with_entry(self, piece: HandPiece, e: Option<usize>) -> Hand {
        match piece {
            HandPiece::Pawn => Hand { pawn: e, ..self },
            HandPiece::Bishop => Hand { bishop: e, ..self },
            HandPiece::Rook => Hand { rook: e, ..self },
        }
    }

    /// The number of `piece` held, absence counting as zero.
    pub open spec fn count(self, piece: HandPiece) -> nat {
        match self.entry(piece) {
            Some(n) => n as nat,
            None => 0,
        }
    }

    /// The hand with `n` more of `piece`; the entry exists afterwards.
    pub open spec fn added(self, piece: HandPiece, n: nat) -> Hand {
        self.with_entry(piece, Some((self.count(piece) + n) as usize))
    }

    /// A hand with no entry.
    pub fn new() -> (r: Hand)
        ensures
            r == empty_hand(),
    {
        Hand { pawn: None, bishop: None, rook: None }
    }

    /// The entry for `piece`.
    pub fn get(&self, piece: HandPiece) -> (r: Option<usize>)
        ensures
            r == self.entry(piece),
    {
        match piece {
            HandPiece::Pawn => self.pawn,
            HandPiece::Bishop => self.bishop,
            HandPiece::Rook => self.rook,
        }
    }

    /// Sets the entry for `piece` to `count`.
    pub fn insert(&mut self, piece: HandPiece, count: usize)
        ensures
            *final(self) == old(self).with_entry(piece, Some(count)),
    {
        match piece {
            HandPiece::Pawn => self.pawn = Some(count),
            HandPiece::Bishop => self.bishop = Some(count),
            HandPiece::Rook => self.rook = Some(count),
        }
    }

    /// Adds `n` to the count of `piece`, creating the entry at zero first
    /// where there is none.
    pub fn add(&mut self, piece: HandPiece, n: usize)
        requires
            old(self).count(piece) + n <= usize::MAX,
        ensures
            *final(self) == old(self).added(piece, n as nat),
    {
        let now = match self.get(piece) {
            Some(c) => c,
            None => 0,
        };
        self.insert(piece, now + n);
    }
}

/// Both players' hands.
#[derive(Debug, Clone, Copy, PartialEq, Eq, Structural)]
pub struct Hands {
    pub black: Hand,
    pub white: Hand,
}

impl Hands {
    /// The hand of `color`.
    pub open spec fn of(self, color: Color) -> Hand {
        match color {
            Color::Black => self.black,
            Color::White => self.white,
        }
    }

    /// The hand of `color`.
    pub fn get(&self, color: Color) -> (r: &Hand)
        ensures
            *r == self.of(color),
    {
        match color {
            Color::Black => &self.black,
            Color::White => &self.white,
        }
    }
}

/// One full snapshot of the game.
#[derive(Debug, Clone, Copy, PartialEq, Eq)]
pub struct Position {
    pub board: Board,
    pub to_play: Color,
    pub black_hand: Hand,
    pub white_hand: Hand,
}

/// A position with the board as its sequence of squares.
pub struct PositionView {
    pub board: Seq<Option<Piece>>,
    pub to_play: Color,
    pub black_hand: Hand,
    pub white_hand: Hand,
}

impl View for Position {
    type V = PositionView;

    open spec fn view(&self) -> PositionView {
        PositionView {
            board: self.board@,
            to_play: self.to_play,
            black_hand: self.black_hand,
            white_hand: self.white_hand,
        }
    }
}

/// The current position and, oldest first, the positions before it, kept
/// so that a repetition of positions can be detected.
pub struct GameState {
    pub current_position: Position,
    pub previous_positions: Vec<Position>,
}

impl GameState {
    /// A game at `initial`, with no history.
    pub fn new(initial: Position) -> (r: GameState)
        ensures
            r.current_position == initial,
            r.previous_positions@ == Seq::<Position>::empty(),
    {
        GameState { current_position: initial, previous_positions: Vec::new() }
    }

    /// Moves the current position onto the history and installs `next`.
    pub fn advance(&mut self, next: Position)
        ensures
            final(self).current_position == next,
            final(self).previous_positions@ == old(self).previous_positions@.push(
                old(self).current_position,
            ),
    {
        let prev = self.current_position;
        self.previous_positions.push(prev);
        self.current_position = next;
    }
}

} // verus!
