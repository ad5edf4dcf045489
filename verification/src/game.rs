//! Coordinate-level game model: board vectors and the piece/side vocabulary
//! used by the square-array engine.

use vstd::prelude::*;

pub mod engine;
pub mod fen;
pub mod moves;
pub mod square;

verus! {

/// A board coordinate with file `x` and rank `y`, each in `0..8`.
#[derive(Debug, Clone, Copy, PartialEq, Eq, Structural, Hash)]
pub struct Vector {
    pub x: u8,
    pub y: u8,
}

impl Vector {
    pub fn new(x: u8, y: u8) -> (r: Self)
        ensures
            r.x == x && r.y == y,
    {
        Self { x, y }
    }

    /// The coordinate of bit `index` in little-endian rank-file order.
    pub fn from_bit_position_index(index: usize) -> (r: Self)
        requires
            index < 64,
        ensures
            r.x == index % 8 && r.y == index / 8,
            r.x < 8 && r.y < 8,
    {
        let x = index % 8;
        let y = index / 8;
        Self { x: x as u8, y: y as u8 }
    }

    /// The 0x88 mailbox slot of this coordinate.
    pub fn mail_box_index(&self) -> (r: usize)
        requires
            self.x < 8 && self.y < 8,
        ensures
            r == self.y * 16 + self.x,
            r < 128,
    {
        (self.y * 16 + self.x) as usize
    }

    /// The bitboard square of this coordinate.
    pub fn bit_position_index(&self) -> (r: usize)
        requires
            self.x < 8 && self.y < 8,
        ensures
            r == self.y * 8 + self.x,
            r < 64,
    {
        (self.y * 8 + self.x) as usize
    }
}

/// One of the two sides, as used by the square-array engine.
#[derive(Debug, Clone, Copy, PartialEq, Eq, Structural, Hash)]
pub enum Team {
    White,
    Black,
}

/// The other side.
pub open spec fn spec_opposite_team(team: Team) -> Team {
    match team {
        Team::White => Team::Black,
        Team::Black => Team::White,
    }
}

pub fn get_opposite_team(team: Team) -> (r: Team)
    ensures
        r == spec_opposite_team(team),
{
    match team {
        Team::White => Team::Black,
        Team::Black => Team::White,
    }
}

/// The closed set of piece kinds.
#[derive(Debug, Clone, Copy, PartialEq, Eq, Structural, Hash)]
pub enum PieceType {
    Pawn,
    Bishop,
    Knight,
    Rook,
    Queen,
    King,
}

/// A piece on the square-array board.
#[derive(Debug, Clone, Copy, PartialEq, Eq, Structural, Hash)]
pub struct Piece {
    pub piece_type: PieceType,
    pub team: Team,
}

/// A file-half of the board, for castling.
#[derive(Debug, Clone, Copy, PartialEq, Eq, Structural, Hash)]
pub enum Side {
    KingSide,
    QueenSide,
}

/// How a finished game ended.
#[derive(Debug, Clone, Copy, PartialEq, Eq, Structural, Hash)]
pub enum GameEnding {
    Checkmate,
    Stalemate,
}

/// Which castling moves are still available to each side.
#[derive(Debug, Clone, Copy, PartialEq, Eq, Structural, Hash)]
pub struct CastlingRights {
    pub white_king_side: bool,
    pub white_queen_side: bool,
    pub black_king_side: bool,
    pub black_queen_side: bool,
}

/// The scalar part of the square-array game state.
#[derive(Debug, Clone, Copy, PartialEq, Eq, Structural, Hash)]
pub struct BoardState {
    pub team_to_play: Team,
    pub en_passant_target_square: Option<Coordinates>,
    pub ending: Option<GameEnding>,
    pub castling: CastlingRights,
}

/// A one-based board coordinate, file and rank each in `1..=8`.
#[derive(Debug, Clone, Copy, PartialEq, Eq, Structural, Hash)]
pub struct Coordinates {
    pub x: i8,
    pub y: i8,
}

/// A move of the square-array engine, as played and reported.
#[derive(Debug, Clone, Copy, PartialEq, Eq, Structural, Hash)]
pub struct Move {
    pub piece: Piece,
    pub from: Coordinates,
    pub to: Coordinates,
    pub check: bool,
    pub capture: bool,
    pub castle: bool,
    pub ending: Option<GameEnding>,
    pub en_passant: bool,
    pub promotion: bool,
}

/// `state` with the castling right of `team` on `side` set to `allowed`.
pub open spec fn spec_update_castling(
    castling: CastlingRights,
    team: Team,
    side: Side,
    allowed: bool,
) -> CastlingRights {
    match (team, side) {
        (Team::White, Side::KingSide) => CastlingRights { white_king_side: allowed, ..castling },
        (Team::White, Side::QueenSide) => CastlingRights { white_queen_side: allowed, ..castling },
        (Team::Black, Side::KingSide) => CastlingRights { black_king_side: allowed, ..castling },
        (Team::Black, Side::QueenSide) => CastlingRights { black_queen_side: allowed, ..castling },
    }
}

pub fn update_castling_state(state: &mut BoardState, team: Team, side: Side, allowed: bool)
    ensures
        final(state).castling == spec_update_castling(old(state).castling, team, side, allowed),
        final(state).team_to_play == old(state).team_to_play,
        final(state).en_passant_target_square == old(state).en_passant_target_square,
        final(state).ending == old(state).ending,
{
    match (team, side) {
        (Team::White, Side::KingSide) => state.castling.white_king_side = allowed,
        (Team::White, Side::QueenSide) => state.castling.white_queen_side = allowed,
        (Team::Black, Side::KingSide) => state.castling.black_king_side = allowed,
        (Team::Black, Side::QueenSide) => state.castling.black_queen_side = allowed,
    }
}

/// The rank (0-based) where a side's pawns start.
pub fn get_pawn_rank_for_team(team: u8) -> (r: u8)
    ensures
        r == if team == 0 { 1u8 } else { 6u8 },
{
    if team == 0 { 1 } else { 6 }
}

/// The rank (0-based) on which a side's pawn stands after the double push
/// that allows it to be captured en passant.
pub fn get_en_passant_rank_for_team(team: u8) -> (r: u8)
    ensures
        r == if team == 0 { 3u8 } else { 4u8 },
{
    if team == 0 { 3 } else { 4 }
}

} // verus!
