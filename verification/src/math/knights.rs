//! Knight attack masks.

use vstd::prelude::*;
use crate::bits::{bit_at, is_single_bit, lemma_single_bit_tz, lemma_bit_set, lemma_bit_single,
    lemma_bit_none, lemma_bit_and, lemma_bit_not, sq_mask};
use crate::board::{BitBoard, BitPosition, Pieces, Team};
use crate::math::{knight_reach, mask_all_reach, on_board, sq_at};

verus! {

/// `acc` with the square `delta` away from (f, r) added, if it is on the board.
pub(crate) fn add_delta(acc: u64, f: i16, r: i16, df: i16, dr: i16) -> (res: u64)
    requires
        0 <= f < 8,
        0 <= r < 8,
        -2 <= df <= 2,
        -2 <= dr <= 2,
    ensures
        forall|t: u64|
            t < 64 ==> (#[trigger] bit_at(res, t) <==> (bit_at(acc, t) || (on_board(
                f + df,
                r + dr,
            ) && t == sq_at(f + df, r + dr)))),
{
    proof {
        lemma_bit_set();
        lemma_bit_single();
    }
    let nf = f + df;
    let nr = r + dr;
    if nf >= 0 && nf < 8 && nr >= 0 && nr < 8 {
        let t = (nr * 8 + nf) as u64;
        let res = acc | (1u64 << t);
        proof {
            assert(res == acc | sq_mask(t));
            assert(t as int == sq_at(f + df, r + dr));
        }
        res
    } else {
        acc
    }
}

/// The squares a knight on `sq` attacks.
#[verifier::rlimit(60)]
pub(crate) fn knight_targets_from(sq: u8) -> (res: u64)
    requires
        sq < 64,
    ensures
        forall|t: u64| t < 64 ==> (#[trigger] bit_at(res, t) <==> knight_reach(sq as int, t as int)),
{
    proof {
        lemma_bit_none();
    }
    let f = (sq % 8) as i16;
    let r = (sq / 8) as i16;
    let mut res: u64 = 0;
    res = add_delta(res, f, r, 1, 2);
    res = add_delta(res, f, r, -1, 2);
    res = add_delta(res, f, r, 1, -2);
    res = add_delta(res, f, r, -1, -2);
    res = add_delta(res, f, r, 2, 1);
    res = add_delta(res, f, r, -2, 1);
    res = add_delta(res, f, r, 2, -1);
    res = add_delta(res, f, r, -2, -1);
    res
}

/// The squares the single knight whose bit is `knight_bit` attacks.
pub fn mask_knight_moves(knight_bit: u64) -> (res: BitBoard)
    requires
        is_single_bit(knight_bit),
    ensures
        forall|t: u64|
            t < 64 ==> (#[trigger] bit_at(res.0, t) <==> knight_reach(
                vstd::std_specs::bits::u64_trailing_zeros(knight_bit) as int,
                t as int,
            )),
{
    proof {
        lemma_single_bit_tz(knight_bit);
    }
    let sq = knight_bit.trailing_zeros() as u8;
    BitBoard(knight_targets_from(sq))
}

/// The union of the attacks of all knights in `knights`.
pub fn mask_all_knight_moves(knights: &BitBoard) -> (res: BitBoard)
    ensures
        forall|t: u64|
            t < 64 ==> (#[trigger] bit_at(res.0, t) <==> exists|s: u64|
                s < 64 && #[trigger] bit_at(knights.0, s) && knight_reach(s as int, t as int)),
{
    BitBoard(mask_all_reach(knights.0, 0, Pieces::KNIGHT))
}

/// The squares `team`'s knights attack, own pieces excluded.
pub fn calculate_all_knight_moves(position: &BitPosition, team: usize) -> (res: BitBoard)
    requires
        team < 2,
    ensures
        forall|t: u64|
            t < 64 ==> (#[trigger] bit_at(res.0, t) <==> ((exists|s: u64|
                s < 64 && #[trigger] bit_at(position.spec_pieces(team as int, 2), s)
                    && knight_reach(s as int, t as int)) && !bit_at(
                position.spec_side(team as int),
                t,
            ))),
{
    proof {
        lemma_bit_and();
        lemma_bit_not();
    }
    let team_pieces = position.get_team_pieces(team);
    let knights = position.get_pieces(team, Pieces::KNIGHT);
    let all = mask_all_knight_moves(&knights);
    BitBoard(all.0 & !team_pieces.0)
}

} // verus!
