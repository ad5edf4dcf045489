//! King attack masks and castling availability.

use vstd::prelude::*;
use crate::bits::{bit_at, is_single_bit, lemma_single_bit_tz, lemma_bit_none, lemma_bit_not,
    lemma_bit_and, lemma_bit_or, sq_mask};
use crate::board::{BitBoard, BitPosition, Pieces, Team};
use crate::board::state::{CastlingRights, CastlingSides, spec_castling_bit};
use crate::math::{king_reach, knights::add_delta, mask_all_reach, on_board, sq_at};

verus! {

pub const WHITE_QUEENSIDE_KING_CASTLE: u64 = 0x4;

pub const WHITE_KINGSIDE_KING_CASTLE: u64 = 0x40;

pub const BLACK_QUEENSIDE_KING_CASTLE: u64 = 0x400000000000000;

pub const BLACK_KINGSIDE_KING_CASTLE: u64 = 0x4000000000000000;

pub const WHITE_QUEENSIDE_CASTLE_BLOCKS: u64 = 0xE;

pub const WHITE_KINGSIDE_CASTLE_BLOCKS: u64 = 0x60;

pub const BLACK_QUEENSIDE_CASTLE_BLOCKS: u64 = 0xE00000000000000;

pub const BLACK_KINGSIDE_CASTLE_BLOCKS: u64 = 0x6000000000000000;

/// Which squares the four castling destination masks stand for.
pub proof fn lemma_castle_dest_squares()
    by (bit_vector)
    ensures
        WHITE_KINGSIDE_KING_CASTLE == sq_mask(6),
        WHITE_QUEENSIDE_KING_CASTLE == sq_mask(2),
        BLACK_KINGSIDE_KING_CASTLE == sq_mask(62),
        BLACK_QUEENSIDE_KING_CASTLE == sq_mask(58),
{
}

/// The squares a king on `sq` steps to.
#[verifier::rlimit(60)]
pub(crate) fn king_targets_from(sq: u8) -> (res: u64)
    requires
        sq < 64,
    ensures
        forall|t: u64| t < 64 ==> (#[trigger] bit_at(res, t) <==> king_reach(sq as int, t as int)),
{
    proof {
        lemma_bit_none();
    }
    let f = (sq % 8) as i16;
    let r = (sq / 8) as i16;
    let mut res: u64 = 0;
    res = add_delta(res, f, r, 1, 0);
    res = add_delta(res, f, r, -1, 0);
    res = add_delta(res, f, r, 0, 1);
    res = add_delta(res, f, r, 0, -1);
    res = add_delta(res, f, r, 1, 1);
    res = add_delta(res, f, r, 1, -1);
    res = add_delta(res, f, r, -1, 1);
    res = add_delta(res, f, r, -1, -1);
    res
}

/// The destinations of a king on `sq`, avoiding the supplied threat squares.
pub(crate) fn king_dests_from(sq: u8, opponent_threats: Option<&BitBoard>) -> (res: BitBoard)
    requires
        sq < 64,
    ensures
        forall|t: u64|
            t < 64 ==> (#[trigger] bit_at(res.0, t) <==> (king_reach(sq as int, t as int)
                && match opponent_threats {
                Some(th) => !bit_at(th.0, t),
                None => true,
            })),
{
    let steps = king_targets_from(sq);
    match opponent_threats {
        Some(th) => {
            proof {
                lemma_bit_and();
                lemma_bit_not();
            }
            BitBoard(steps & !th.0)
        },
        None => BitBoard(steps),
    }
}

/// The squares the single king whose bit is `king_bit` attacks, avoiding the
/// supplied threat squares.
pub fn mask_king_moves(king_bit: u64, opponent_threats: Option<&BitBoard>) -> (res: BitBoard)
    requires
        is_single_bit(king_bit),
    ensures
        forall|t: u64|
            t < 64 ==> (#[trigger] bit_at(res.0, t) <==> (king_reach(
                vstd::std_specs::bits::u64_trailing_zeros(king_bit) as int,
                t as int,
            ) && match opponent_threats {
                Some(th) => !bit_at(th.0, t),
                None => true,
            })),
{
    proof {
        lemma_single_bit_tz(king_bit);
    }
    let sq = king_bit.trailing_zeros() as u8;
    king_dests_from(sq, opponent_threats)
}

/// The union of the king steps of every king in `kings`.
pub fn king_steps_of_all(kings: &BitBoard) -> (res: BitBoard)
    ensures
        forall|t: u64|
            t < 64 ==> (#[trigger] bit_at(res.0, t) <==> exists|s: u64|
                s < 64 && #[trigger] bit_at(kings.0, s) && king_reach(s as int, t as int)),
{
    BitBoard(mask_all_reach(kings.0, 0, Pieces::KING))
}

/// The squares `team`'s king steps to.
pub fn calculate_king_moves(position: &BitPosition, team: Team) -> (res: BitBoard)
    requires
        team < 2,
        is_single_bit(position.spec_pieces(team as int, 5)),
    ensures
        forall|t: u64|
            t < 64 ==> (#[trigger] bit_at(res.0, t) <==> king_reach(
                vstd::std_specs::bits::u64_trailing_zeros(
                    position.spec_pieces(team as int, 5),
                ) as int,
                t as int,
            )),
{
    let king = position.get_pieces(team, Pieces::KING);
    mask_king_moves(king.0, None)
}

/// The castling destinations `team`'s rights and the empty squares allow: the
/// square two files toward each rook whose wing is both allowed and clear.
pub fn calculate_king_castling_moves(
    castling_rights: &CastlingRights,
    team: Team,
    occupied_spaces: &BitBoard,
) -> (res: BitBoard)
    ensures
        res.0 == (if team == 0 {
            (if castling_rights.spec_bits() & spec_castling_bit(0, 0) != 0 && occupied_spaces.0
                & WHITE_KINGSIDE_CASTLE_BLOCKS == 0 {
                WHITE_KINGSIDE_KING_CASTLE
            } else {
                0u64
            }) | (if castling_rights.spec_bits() & spec_castling_bit(0, 1) != 0 && occupied_spaces.0
                & WHITE_QUEENSIDE_CASTLE_BLOCKS == 0 {
                WHITE_QUEENSIDE_KING_CASTLE
            } else {
                0u64
            })
        } else {
            (if castling_rights.spec_bits() & spec_castling_bit(1, 0) != 0 && occupied_spaces.0
                & BLACK_KINGSIDE_CASTLE_BLOCKS == 0 {
                BLACK_KINGSIDE_KING_CASTLE
            } else {
                0u64
            }) | (if castling_rights.spec_bits() & spec_castling_bit(1, 1) != 0 && occupied_spaces.0
                & BLACK_QUEENSIDE_CASTLE_BLOCKS == 0 {
                BLACK_QUEENSIDE_KING_CASTLE
            } else {
                0u64
            })
        }),
{
    let ks: u64 = if team == 0 {
        if castling_rights.is_allowed(0, CastlingSides::KINGSIDE) && occupied_spaces.0
            & WHITE_KINGSIDE_CASTLE_BLOCKS == 0 {
            WHITE_KINGSIDE_KING_CASTLE
        } else {
            0
        }
    } else {
        if castling_rights.is_allowed(1, CastlingSides::KINGSIDE) && occupied_spaces.0
            & BLACK_KINGSIDE_CASTLE_BLOCKS == 0 {
            BLACK_KINGSIDE_KING_CASTLE
        } else {
            0
        }
    };
    let qs: u64 = if team == 0 {
        if castling_rights.is_allowed(0, CastlingSides::QUEENSIDE) && occupied_spaces.0
            & WHITE_QUEENSIDE_CASTLE_BLOCKS == 0 {
            WHITE_QUEENSIDE_KING_CASTLE
        } else {
            0
        }
    } else {
        if castling_rights.is_allowed(1, CastlingSides::QUEENSIDE) && occupied_spaces.0
            & BLACK_QUEENSIDE_CASTLE_BLOCKS == 0 {
            BLACK_QUEENSIDE_KING_CASTLE
        } else {
            0
        }
    };
    BitBoard(ks | qs)
}

/// The castling destinations the empty squares alone allow, rights not asked.
pub fn mask_king_castling_moves(team: Team, occupied_spaces: &BitBoard) -> (res: BitBoard)
    ensures
        res.0 == (if team == 0 {
            (if occupied_spaces.0 & WHITE_KINGSIDE_CASTLE_BLOCKS == 0 {
                WHITE_KINGSIDE_KING_CASTLE
            } else {
                0u64
            }) | (if occupied_spaces.0 & WHITE_QUEENSIDE_CASTLE_BLOCKS == 0 {
                WHITE_QUEENSIDE_KING_CASTLE
            } else {
                0u64
            })
        } else {
            (if occupied_spaces.0 & BLACK_KINGSIDE_CASTLE_BLOCKS == 0 {
                BLACK_KINGSIDE_KING_CASTLE
            } else {
                0u64
            }) | (if occupied_spaces.0 & BLACK_QUEENSIDE_CASTLE_BLOCKS == 0 {
                BLACK_QUEENSIDE_KING_CASTLE
            } else {
                0u64
            })
        }),
{
    let ks: u64 = if team == 0 {
        if occupied_spaces.0 & WHITE_KINGSIDE_CASTLE_BLOCKS == 0 {
            WHITE_KINGSIDE_KING_CASTLE
        } else {
            0
        }
    } else {
        if occupied_spaces.0 & BLACK_KINGSIDE_CASTLE_BLOCKS == 0 {
            BLACK_KINGSIDE_KING_CASTLE
        } else {
            0
        }
    };
    let qs: u64 = if team == 0 {
        if occupied_spaces.0 & WHITE_QUEENSIDE_CASTLE_BLOCKS == 0 {
            WHITE_QUEENSIDE_KING_CASTLE
        } else {
            0
        }
    } else {
        if occupied_spaces.0 & BLACK_QUEENSIDE_CASTLE_BLOCKS == 0 {
            BLACK_QUEENSIDE_KING_CASTLE
        } else {
            0
        }
    };
    BitBoard(ks | qs)
}

} // verus!
