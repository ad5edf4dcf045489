//! Scalar game state of the bitboard engine: castling rights, en-passant
//! target and side to move.

use vstd::prelude::*;
use crate::board::{Team, Teams};

verus! {

/// The scalar part of a position.
#[derive(Debug, Clone, PartialEq, Eq, Structural, Copy)]
pub struct ChessState {
    pub castling_rights: CastlingRights,
    pub en_passant_square: Option<usize>,
    pub team_to_play: Team,
}

pub struct CastlingSides;

impl CastlingSides {
    pub const KINGSIDE: usize = 0;

    pub const QUEENSIDE: usize = 1;
}

/// The four castling availability bits, one per side and wing.
#[derive(Debug, Clone, PartialEq, Eq, Structural, Copy)]
pub struct CastlingRights(u8);

/// The bit that stands for the right of `team` on `side`.
pub open spec fn spec_castling_bit(team: Team, side: usize) -> u8 {
    if team == 0 && side == 0 {
        0b0001
    } else if team == 0 && side == 1 {
        0b0010
    } else if team == 1 && side == 0 {
        0b0100
    } else if team == 1 && side == 1 {
        0b1000
    } else {
        0
    }
}

impl CastlingRights {
    const NONE: u8 = 0b0000;

    const WHITE_KINGSIDE: u8 = 0b0001;

    const WHITE_QUEENSIDE: u8 = 0b0010;

    const BLACK_KINGSIDE: u8 = 0b0100;

    const BLACK_QUEENSIDE: u8 = 0b1000;

    const ALL: u8 = 0b1111;

    /// The rights as a bit set.
    pub closed spec fn spec_bits(self) -> u8 {
        self.0
    }

    /// A rights value with exactly the given bits.
    pub closed spec fn spec_from_bits(bits: u8) -> CastlingRights {
        CastlingRights(bits)
    }

    pub fn none() -> (r: Self)
        ensures
            r.spec_bits() == 0,
    {
        CastlingRights(CastlingRights::NONE)
    }

    pub fn all() -> (r: Self)
        ensures
            r.spec_bits() == 0b1111,
    {
        CastlingRights(CastlingRights::ALL)
    }

    /// Rebuilds a rights value from its bit set.
    pub fn from_bits(bits: u8) -> (r: Self)
        ensures
            r.spec_bits() == bits,
            r == CastlingRights::spec_from_bits(bits),
    {
        CastlingRights(bits)
    }

    /// The bits as a plain value, for snapshotting into a move record.
    pub fn bits(&self) -> (r: u8)
        ensures
            r == self.spec_bits(),
    {
        self.0
    }

    pub fn allow(&mut self, team: Team, side: usize)
        ensures
            final(self).spec_bits() == old(self).spec_bits() | spec_castling_bit(team, side),
    {
        self.0 = self.0 | self.get_bit(team, side);
    }

    pub fn disallow(&mut self, team: Team, side: usize)
        ensures
            final(self).spec_bits() == old(self).spec_bits() & !spec_castling_bit(team, side),
    {
        self.0 = self.0 & !self.get_bit(team, side);
    }

    pub fn is_allowed(&self, team: Team, side: usize) -> (r: bool)
        ensures
            r == (self.spec_bits() & spec_castling_bit(team, side) != 0),
    {
        self.0 & self.get_bit(team, side) != 0
    }

    /// Withdraws both of a side's rights, as a king move does.
    pub fn disallow_all(&mut self, team: Team)
        requires
            team < 2,
        ensures
            final(self).spec_bits() == old(self).spec_bits() & !(spec_castling_bit(team, 0)
                | spec_castling_bit(team, 1)),
    {
        let bits: u8 = if team == Teams::WHITE {
            Self::WHITE_KINGSIDE | Self::WHITE_QUEENSIDE
        } else {
            Self::BLACK_KINGSIDE | Self::BLACK_QUEENSIDE
        };
        self.0 = self.0 & !bits;
    }

    pub fn get_bit(&self, team: Team, side: usize) -> (r: u8)
        ensures
            r == spec_castling_bit(team, side),
    {
        if team == Teams::WHITE && side == CastlingSides::KINGSIDE {
            Self::WHITE_KINGSIDE
        } else if team == Teams::WHITE && side == CastlingSides::QUEENSIDE {
            Self::WHITE_QUEENSIDE
        } else if team == Teams::BLACK && side == CastlingSides::KINGSIDE {
            Self::BLACK_KINGSIDE
        } else if team == Teams::BLACK && side == CastlingSides::QUEENSIDE {
            Self::BLACK_QUEENSIDE
        } else {
            0
        }
    }
}

} // verus!
