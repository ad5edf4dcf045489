//! Bitboard-side position store: sides, piece kinds, 64-bit boards, the
//! two-sided piece table with per-side occupancy, the 0x88 mailbox and the
//! reversible move record.

use vstd::prelude::*;
use crate::bits::{bit_at, count_bits, pop_count};
use crate::game::Vector;

pub mod board;
pub mod hybrid;
pub mod state;

verus! {

/// A side, 0 for White and 1 for Black.
pub type Team = usize;

pub struct Teams;

impl Teams {
    pub const WHITE: usize = 0;

    pub const BLACK: usize = 1;
}

/// The other side.
pub open spec fn spec_opposite(team: Team) -> Team {
    if team == 0 {
        1
    } else {
        0
    }
}

pub fn get_opposite_team(team: Team) -> (r: Team)
    ensures
        r == spec_opposite(team),
{
    if team == Teams::WHITE {
        Teams::BLACK
    } else {
        Teams::WHITE
    }
}

/// A piece kind, 0..6 in the order pawn, bishop, knight, rook, queen, king.
pub type Piece = usize;

pub struct Pieces;

impl Pieces {
    pub const PAWN: usize = 0;

    pub const BISHOP: usize = 1;

    pub const KNIGHT: usize = 2;

    pub const ROOK: usize = 3;

    pub const QUEEN: usize = 4;

    pub const KING: usize = 5;

    /// The six piece kinds, in value order.
    pub fn iter() -> (r: Vec<Piece>)
        ensures
            r.len() == 6,
            forall|i: int| 0 <= i < 6 ==> #[trigger] r[i] == i,
    {
        let mut r: Vec<Piece> = Vec::new();
        let mut k: usize = 0;
        while k < 6
            invariant
                k <= 6,
                r.len() == k,
                forall|i: int| 0 <= i < k ==> #[trigger] r[i] == i,
            decreases 6 - k,
        {
            r.push(k);
            k = k + 1;
        }
        r
    }
}

/// A set of squares as a 64-bit word, bit `rank * 8 + file`.
#[derive(PartialEq, Eq, Structural, Clone, Copy, Debug, Hash)]
pub struct BitBoard(pub u64);

impl BitBoard {
    /// Union of the two square sets.
    pub fn bitor(self, rhs: Self) -> (r: Self)
        ensures
            r.0 == self.0 | rhs.0,
    {
        BitBoard(self.0 | rhs.0)
    }

    /// Intersection of the two square sets.
    pub fn bitand(self, rhs: Self) -> (r: Self)
        ensures
            r.0 == self.0 & rhs.0,
    {
        BitBoard(self.0 & rhs.0)
    }

    /// Complement of the square set.
    pub fn complement(self) -> (r: Self)
        ensures
            r.0 == !self.0,
    {
        BitBoard(!self.0)
    }

    pub fn shift_left(self, n: u32) -> (r: Self)
        requires
            n < 64,
        ensures
            r.0 == self.0 << n,
    {
        BitBoard(self.0 << n)
    }

    pub fn shift_right(self, n: u32) -> (r: Self)
        requires
            n < 64,
        ensures
            r.0 == self.0 >> n,
    {
        BitBoard(self.0 >> n)
    }

    /// Shift forward from the side's perspective: left for White, right for Black.
    pub fn shift_up(self, n: u32, team: &Team) -> (r: Self)
        requires
            n < 64,
        ensures
            r.0 == if *team == 0 { self.0 << n } else { self.0 >> n },
    {
        if team == &Teams::WHITE {
            self.shift_left(n)
        } else {
            self.shift_right(n)
        }
    }

    /// How many squares the set holds.
    pub fn count_ones(&self) -> (r: u32)
        ensures
            r == count_bits(self.0),
            r <= 64,
    {
        pop_count(self.0)
    }
}

/// A piece of a given kind belonging to a given side.
#[derive(Debug, Clone, Hash, PartialEq, Eq, Structural, Copy)]
pub enum GamePiece {
    Pawn(Team),
    Bishop(Team),
    Knight(Team),
    Rook(Team),
    Queen(Team),
    King(Team),
}

/// The piece of kind `piece` for side `team`.
pub open spec fn spec_game_piece(piece: Piece, team: Team) -> GamePiece {
    if piece == 0 {
        GamePiece::Pawn(team)
    } else if piece == 1 {
        GamePiece::Bishop(team)
    } else if piece == 2 {
        GamePiece::Knight(team)
    } else if piece == 3 {
        GamePiece::Rook(team)
    } else if piece == 4 {
        GamePiece::Queen(team)
    } else {
        GamePiece::King(team)
    }
}

/// The kind of a piece.
pub open spec fn spec_piece_kind(gp: GamePiece) -> Piece {
    match gp {
        GamePiece::Pawn(_) => 0,
        GamePiece::Bishop(_) => 1,
        GamePiece::Knight(_) => 2,
        GamePiece::Rook(_) => 3,
        GamePiece::Queen(_) => 4,
        GamePiece::King(_) => 5,
    }
}

/// The side a piece belongs to.
pub open spec fn spec_piece_team(gp: GamePiece) -> Team {
    match gp {
        GamePiece::Pawn(team) => team,
        GamePiece::Bishop(team) => team,
        GamePiece::Knight(team) => team,
        GamePiece::Rook(team) => team,
        GamePiece::Queen(team) => team,
        GamePiece::King(team) => team,
    }
}

impl GamePiece {
    pub fn from(piece: Piece, team: Team) -> (r: GamePiece)
        requires
            piece < 6,
        ensures
            r == spec_game_piece(piece, team),
    {
        if piece == Pieces::PAWN {
            GamePiece::Pawn(team)
        } else if piece == Pieces::BISHOP {
            GamePiece::Bishop(team)
        } else if piece == Pieces::KNIGHT {
            GamePiece::Knight(team)
        } else if piece == Pieces::ROOK {
            GamePiece::Rook(team)
        } else if piece == Pieces::QUEEN {
            GamePiece::Queen(team)
        } else {
            GamePiece::King(team)
        }
    }

    pub fn get_piece(&self) -> (r: Piece)
        ensures
            r == spec_piece_kind(*self),
            r < 6,
    {
        match self {
            GamePiece::Pawn(_) => Pieces::PAWN,
            GamePiece::Bishop(_) => Pieces::BISHOP,
            GamePiece::Knight(_) => Pieces::KNIGHT,
            GamePiece::Rook(_) => Pieces::ROOK,
            GamePiece::Queen(_) => Pieces::QUEEN,
            GamePiece::King(_) => Pieces::KING,
        }
    }

    pub fn get_team(&self) -> (r: Team)
        ensures
            r == spec_piece_team(*self),
    {
        match self {
            GamePiece::Pawn(team) => *team,
            GamePiece::Bishop(team) => *team,
            GamePiece::Knight(team) => *team,
            GamePiece::Rook(team) => *team,
            GamePiece::Queen(team) => *team,
            GamePiece::King(team) => *team,
        }
    }
}

/// A move stated as two coordinates.
#[derive(Debug, Clone, Copy, PartialEq, Eq, Structural)]
pub struct PossibleMove {
    pub origin: Vector,
    pub target: Vector,
}

/// The pseudo-legal targets of the piece standing on `origin`.
#[derive(Debug, Clone, Copy, PartialEq, Eq, Structural)]
pub struct PossibleMoves {
    pub origin: usize,
    pub attacks: BitBoard,
}

/// The twelve piece bitboards with their per-side occupancy aggregates.
#[derive(Debug, Clone, PartialEq, Eq, Copy)]
pub struct BitPosition {
    bb_sides: [BitBoard; 2],
    pub(crate) bb_pieces: [[BitBoard; 6]; 2],
}

impl BitPosition {
    /// The squares held by pieces of kind `piece` of side `team`.
    pub closed spec fn spec_pieces(self, team: int, piece: int) -> u64 {
        self.bb_pieces@[team]@[piece].0
    }

    /// The squares held by side `team`.
    pub closed spec fn spec_side(self, team: int) -> u64 {
        self.bb_sides@[team].0
    }

    /// The union of the six piece boards of side `team`.
    pub open spec fn spec_union(self, team: int) -> u64 {
        self.spec_pieces(team, 0) | self.spec_pieces(team, 1) | self.spec_pieces(team, 2)
            | self.spec_pieces(team, 3) | self.spec_pieces(team, 4) | self.spec_pieces(team, 5)
    }

    pub fn new() -> (r: Self)
        ensures
            forall|s: int, k: int| 0 <= s < 2 && 0 <= k < 6 ==> r.spec_pieces(s, k) == 0,
            forall|s: int| 0 <= s < 2 ==> r.spec_side(s) == 0,
    {
        let bb_sides = [BitBoard(0), BitBoard(0)];
        let bb_pieces = [
            [BitBoard(0), BitBoard(0), BitBoard(0), BitBoard(0), BitBoard(0), BitBoard(0)],
            [BitBoard(0), BitBoard(0), BitBoard(0), BitBoard(0), BitBoard(0), BitBoard(0)],
        ];
        Self { bb_sides, bb_pieces }
    }

    /// The squares no side holds.
    pub fn empty_squares(&self) -> (r: BitBoard)
        ensures
            r.0 == !(self.spec_side(0) | self.spec_side(1)),
    {
        BitBoard(!(self.bb_sides[0].0 | self.bb_sides[1].0))
    }

    /// Adds the squares of `bitboard` to one piece board and its side aggregate.
    pub fn move_or(&mut self, team: Team, piece: Piece, bitboard: BitBoard)
        requires
            team < 2,
            piece < 6,
        ensures
            final(self).spec_pieces(team as int, piece as int) == old(self).spec_pieces(
                team as int,
                piece as int,
            ) | bitboard.0,
            final(self).spec_side(team as int) == old(self).spec_side(team as int) | bitboard.0,
            forall|s: int, k: int|
                0 <= s < 2 && 0 <= k < 6 && !(s == team && k == piece) ==> final(self).spec_pieces(
                    s,
                    k,
                ) == old(self).spec_pieces(s, k),
            forall|s: int|
                0 <= s < 2 && s != team ==> final(self).spec_side(s) == old(self).spec_side(s),
    {
        let mut row = self.bb_pieces[team];
        row[piece] = BitBoard(row[piece].0 | bitboard.0);
        self.bb_pieces[team] = row;
        self.bb_sides[team] = BitBoard(self.bb_sides[team].0 | bitboard.0);
    }

    /// Restricts one piece board and its side aggregate to the squares of `bitboard`.
    pub fn move_and(&mut self, team: Team, piece: Piece, bitboard: BitBoard)
        requires
            team < 2,
            piece < 6,
        ensures
            final(self).spec_pieces(team as int, piece as int) == old(self).spec_pieces(
                team as int,
                piece as int,
            ) & bitboard.0,
            final(self).spec_side(team as int) == old(self).spec_side(team as int) & bitboard.0,
            forall|s: int, k: int|
                0 <= s < 2 && 0 <= k < 6 && !(s == team && k == piece) ==> final(self).spec_pieces(
                    s,
                    k,
                ) == old(self).spec_pieces(s, k),
            forall|s: int|
                0 <= s < 2 && s != team ==> final(self).spec_side(s) == old(self).spec_side(s),
    {
        let mut row = self.bb_pieces[team];
        row[piece] = BitBoard(row[piece].0 & bitboard.0);
        self.bb_pieces[team] = row;
        self.bb_sides[team] = BitBoard(self.bb_sides[team].0 & bitboard.0);
    }

    pub fn get_pieces(&self, team: Team, piece: Piece) -> (r: BitBoard)
        requires
            team < 2,
            piece < 6,
        ensures
            r.0 == self.spec_pieces(team as int, piece as int),
    {
        self.bb_pieces[team][piece]
    }

    pub fn get_team_pieces(&self, team: Team) -> (r: BitBoard)
        requires
            team < 2,
        ensures
            r.0 == self.spec_side(team as int),
    {
        self.bb_sides[team]
    }
}

/// The 128-slot square-to-piece table; slot `rank * 16 + file` holds the piece
/// on that square, and slots with bit 0x88 set are off the board.
#[derive(Debug, Clone, PartialEq, Eq, Copy)]
pub struct MailBox {
    board: [Option<GamePiece>; 128],
}

impl MailBox {
    /// The content of slot `i`.
    pub closed spec fn spec_at(self, i: int) -> Option<GamePiece> {
        self.board@[i]
    }

    pub fn new() -> (r: Self)
        ensures
            forall|i: int| 0 <= i < 128 ==> r.spec_at(i) is None,
    {
        let board = [None; 128];
        Self { board }
    }

    pub fn get_piece_at(&self, index: usize) -> (r: &Option<GamePiece>)
        requires
            index < 128,
        ensures
            *r == self.spec_at(index as int),
    {
        &self.board[index]
    }

    pub fn set_piece_at(&mut self, index: usize, piece: Option<GamePiece>)
        requires
            index < 128,
        ensures
            forall|i: int| 0 <= i < 128 && i != index ==> final(self).spec_at(i) == old(self).spec_at(i),
            final(self).spec_at(index as int) == piece,
    {
        self.board[index] = piece;
    }

    /// Whether the slot index denotes a real board square.
    pub fn is_valid_position(&self, index: usize) -> (r: bool)
        ensures
            r == (index & 0x88 == 0),
    {
        index & 0x88 == 0
    }
}

/// Moves a mailbox index `n` ranks forward from the side's perspective.
pub fn mailbox_shift_up(index: usize, n: usize, team: Team) -> (r: usize)
    requires
        index < 128,
        n < 8,
        team == 0 ==> index + n * 16 < 128,
        team != 0 ==> index >= n * 16,
    ensures
        r == if team == 0 { index + n * 16 } else { index - n * 16 },
{
    if team == Teams::WHITE {
        index + n * 16
    } else {
        index - n * 16
    }
}

/// Moves a mailbox index `n` ranks backward from the side's perspective.
pub fn mailbox_shift_down(index: usize, n: usize, team: Team) -> (r: usize)
    requires
        index < 128,
        n < 8,
        team == 0 ==> index >= n * 16,
        team != 0 ==> index + n * 16 < 128,
    ensures
        r == if team == 0 { index - n * 16 } else { index + n * 16 },
{
    if team == Teams::WHITE {
        index - n * 16
    } else {
        index + n * 16
    }
}

/// A reversible record of a played move: where the piece went, what it
/// captured, how the move was flagged, and the scalar state the move
/// destroyed, so that undoing can restore it.
#[derive(Debug, Hash, Clone, Copy, PartialEq, Eq, Structural)]
pub struct CompletedMove {
    pub origin: u8,
    pub target: u8,
    pub capture: u8,
    pub bits: u8,
    pub prev_castling: u8,
    pub prev_en_passant: Option<u8>,
}

impl CompletedMove {
    pub const PROMOTION: u8 = 0b0000_0001;

    pub const CASTLING: u8 = 0b0000_0010;

    pub const EN_PASSANT: u8 = 0b0000_0100;

    pub const CHECK: u8 = 0b0000_1000;

    pub const CHECKMATE: u8 = 0b0001_0000;

    pub const STALEMATE: u8 = 0b0010_0000;

    /// A record with only origin and target filled in.
    pub open spec fn spec_clean(origin: u8, target: u8) -> CompletedMove {
        CompletedMove {
            origin,
            target,
            capture: 0u8,
            bits: 0u8,
            prev_castling: 0u8,
            prev_en_passant: None,
        }
    }

    /// The captured kind as recorded: 0 for none, kind + 1 otherwise.
    pub open spec fn spec_capture_code(self) -> u8 {
        self.capture
    }

    /// The castling rights that held before the move was played.
    pub open spec fn spec_prev_castling(self) -> u8 {
        self.prev_castling
    }

    /// The en-passant target that held before the move was played.
    pub open spec fn spec_prev_en_passant(self) -> Option<u8> {
        self.prev_en_passant
    }

    pub fn clean(origin: u8, target: u8) -> (r: Self)
        ensures
            r.origin == origin,
            r.target == target,
            r.bits == 0,
            r.spec_capture_code() == 0,
            r.spec_prev_castling() == 0,
            r.spec_prev_en_passant() is None,
            r == CompletedMove::spec_clean(origin, target),
    {
        Self { origin, target, bits: 0u8, capture: 0u8, prev_castling: 0u8, prev_en_passant: None }
    }

    pub fn new(origin: u8, target: u8, bits: u8, capture: u8) -> (r: Self)
        ensures
            r.origin == origin,
            r.target == target,
            r.bits == bits,
            r.spec_capture_code() == capture,
            r.spec_prev_castling() == 0,
            r.spec_prev_en_passant() is None,
    {
        Self { origin, target, bits, capture, prev_castling: 0u8, prev_en_passant: None }
    }

    pub fn set_capture(&mut self, capture: Piece)
        requires
            capture < 6,
        ensures
            final(self).spec_capture_code() == capture + 1,
            final(self).origin == old(self).origin,
            final(self).target == old(self).target,
            final(self).bits == old(self).bits,
            final(self).spec_prev_castling() == old(self).spec_prev_castling(),
            final(self).spec_prev_en_passant() == old(self).spec_prev_en_passant(),
    {
        self.capture = (capture + 1) as u8;
    }

    pub fn set_promotion(&mut self)
        ensures
            final(self).bits == old(self).bits | Self::PROMOTION,
            final(self).origin == old(self).origin,
            final(self).target == old(self).target,
            final(self).spec_capture_code() == old(self).spec_capture_code(),
            final(self).spec_prev_castling() == old(self).spec_prev_castling(),
            final(self).spec_prev_en_passant() == old(self).spec_prev_en_passant(),
    {
        self.bits = self.bits | Self::PROMOTION;
    }

    pub fn set_castling(&mut self)
        ensures
            final(self).bits == old(self).bits | Self::CASTLING,
            final(self).origin == old(self).origin,
            final(self).target == old(self).target,
            final(self).spec_capture_code() == old(self).spec_capture_code(),
            final(self).spec_prev_castling() == old(self).spec_prev_castling(),
            final(self).spec_prev_en_passant() == old(self).spec_prev_en_passant(),
    {
        self.bits = self.bits | Self::CASTLING;
    }

    pub fn set_en_passant(&mut self)
        ensures
            final(self).bits == old(self).bits | Self::EN_PASSANT,
            final(self).origin == old(self).origin,
            final(self).target == old(self).target,
            final(self).spec_capture_code() == old(self).spec_capture_code(),
            final(self).spec_prev_castling() == old(self).spec_prev_castling(),
            final(self).spec_prev_en_passant() == old(self).spec_prev_en_passant(),
    {
        self.bits = self.bits | Self::EN_PASSANT;
    }

    pub fn set_check(&mut self)
        ensures
            final(self).bits == old(self).bits | Self::CHECK,
            final(self).origin == old(self).origin,
            final(self).target == old(self).target,
            final(self).spec_capture_code() == old(self).spec_capture_code(),
            final(self).spec_prev_castling() == old(self).spec_prev_castling(),
            final(self).spec_prev_en_passant() == old(self).spec_prev_en_passant(),
    {
        self.bits = self.bits | Self::CHECK;
    }

    pub fn set_checkmate(&mut self)
        ensures
            final(self).bits == old(self).bits | Self::CHECKMATE,
            final(self).origin == old(self).origin,
            final(self).target == old(self).target,
            final(self).spec_capture_code() == old(self).spec_capture_code(),
            final(self).spec_prev_castling() == old(self).spec_prev_castling(),
            final(self).spec_prev_en_passant() == old(self).spec_prev_en_passant(),
    {
        self.bits = self.bits | Self::CHECKMATE;
    }

    pub fn set_stalemate(&mut self)
        ensures
            final(self).bits == old(self).bits | Self::STALEMATE,
            final(self).origin == old(self).origin,
            final(self).target == old(self).target,
            final(self).spec_capture_code() == old(self).spec_capture_code(),
            final(self).spec_prev_castling() == old(self).spec_prev_castling(),
            final(self).spec_prev_en_passant() == old(self).spec_prev_en_passant(),
    {
        self.bits = self.bits | Self::STALEMATE;
    }

    pub fn is_promotion(&self) -> (r: bool)
        ensures
            r == (self.bits & Self::PROMOTION != 0),
    {
        self.bits & Self::PROMOTION != 0
    }

    pub fn is_castling(&self) -> (r: bool)
        ensures
            r == (self.bits & Self::CASTLING != 0),
    {
        self.bits & Self::CASTLING != 0
    }

    pub fn is_en_passant(&self) -> (r: bool)
        ensures
            r == (self.bits & Self::EN_PASSANT != 0),
    {
        self.bits & Self::EN_PASSANT != 0
    }

    pub fn is_check(&self) -> (r: bool)
        ensures
            r == (self.bits & Self::CHECK != 0),
    {
        self.bits & Self::CHECK != 0
    }

    pub fn is_checkmate(&self) -> (r: bool)
        ensures
            r == (self.bits & Self::CHECKMATE != 0),
    {
        self.bits & Self::CHECKMATE != 0
    }

    pub fn is_stalemate(&self) -> (r: bool)
        ensures
            r == (self.bits & Self::STALEMATE != 0),
    {
        self.bits & Self::STALEMATE != 0
    }

    pub fn is_capture(&self) -> (r: bool)
        ensures
            r == (self.capture != 0),
    {
        self.capture != 0
    }

    pub fn get_capture(&self) -> (r: Piece)
        requires
            self.spec_capture_code() != 0,
        ensures
            r == self.spec_capture_code() - 1,
    {
        (self.capture - 1) as Piece
    }

    pub fn is_valid(&self) -> (r: bool)
        ensures
            r == (self.origin < 64 && self.target < 64),
    {
        self.origin < 64 && self.target < 64
    }
}

} // verus!
