//! Sliding attack masks: ray scans that stop on the first blocker.

use vstd::prelude::*;
use crate::bits::{bit_at, is_single_bit, lemma_single_bit_tz, lemma_bit_set, lemma_bit_single,
    lemma_bit_none, lemma_bit_or, sq_mask};
use crate::board::{BitBoard, Pieces};
use crate::math::{bishop_reach, dir_reach, dir_reach_from, mask_all_reach, on_board, queen_reach,
    rook_reach, sq_at};

verus! {

/// The squares reached walking from (f, r) in direction (df, dr), up to
/// `fuel` steps, stopping right after the first square occupied in `occ`.
pub(crate) fn ray_targets_from(occ: u64, f: i16, r: i16, df: i16, dr: i16, fuel: u8) -> (res: u64)
    requires
        0 <= f < 8,
        0 <= r < 8,
        -1 <= df <= 1,
        -1 <= dr <= 1,
        fuel <= 7,
    ensures
        forall|t: u64|
            t < 64 ==> (#[trigger] bit_at(res, t) <==> dir_reach_from(
                occ,
                f as int,
                r as int,
                df as int,
                dr as int,
                t as int,
                fuel as nat,
            )),
    decreases fuel,
{
    proof {
        lemma_bit_none();
        lemma_bit_set();
        lemma_bit_single();
        lemma_bit_or();
    }
    if fuel == 0 {
        return 0;
    }
    let nf = f + df;
    let nr = r + dr;
    if nf < 0 || nf >= 8 || nr < 0 || nr >= 8 {
        return 0;
    }
    let t0 = (nr * 8 + nf) as u64;
    let bit = 1u64 << t0;
    proof {
        assert(bit == sq_mask(t0));
        assert(t0 as int == sq_at(f as int + df as int, r as int + dr as int));
    }
    if (occ >> t0) & 1 == 1 {
        bit
    } else {
        let rest = ray_targets_from(occ, nf, nr, df, dr, fuel - 1);
        proof {
            assert(forall|t: u64| t < 64 ==> (#[trigger] bit_at(bit | rest, t) <==> (t == t0
                || bit_at(rest, t))));
        }
        bit | rest
    }
}

/// The squares a bishop on `sq` attacks, given the occupancy `occ`.
pub(crate) fn bishop_targets_from(occ: u64, sq: u8) -> (res: u64)
    requires
        sq < 64,
    ensures
        forall|t: u64|
            t < 64 ==> (#[trigger] bit_at(res, t) <==> bishop_reach(occ, sq as int, t as int)),
{
    proof {
        lemma_bit_or();
    }
    let f = (sq % 8) as i16;
    let r = (sq / 8) as i16;
    let a = ray_targets_from(occ, f, r, 1, 1, 7);
    let b = ray_targets_from(occ, f, r, 1, -1, 7);
    let c = ray_targets_from(occ, f, r, -1, 1, 7);
    let d = ray_targets_from(occ, f, r, -1, -1, 7);
    ((a | b) | c) | d
}

/// The squares a rook on `sq` attacks, given the occupancy `occ`.
pub(crate) fn rook_targets_from(occ: u64, sq: u8) -> (res: u64)
    requires
        sq < 64,
    ensures
        forall|t: u64|
            t < 64 ==> (#[trigger] bit_at(res, t) <==> rook_reach(occ, sq as int, t as int)),
{
    proof {
        lemma_bit_or();
    }
    let f = (sq % 8) as i16;
    let r = (sq / 8) as i16;
    let a = ray_targets_from(occ, f, r, 1, 0, 7);
    let b = ray_targets_from(occ, f, r, -1, 0, 7);
    let c = ray_targets_from(occ, f, r, 0, 1, 7);
    let d = ray_targets_from(occ, f, r, 0, -1, 7);
    ((a | b) | c) | d
}

/// The squares a queen on `sq` attacks, given the occupancy `occ`.
pub(crate) fn queen_targets_from(occ: u64, sq: u8) -> (res: u64)
    requires
        sq < 64,
    ensures
        forall|t: u64|
            t < 64 ==> (#[trigger] bit_at(res, t) <==> queen_reach(occ, sq as int, t as int)),
{
    proof {
        lemma_bit_or();
    }
    let rk = rook_targets_from(occ, sq);
    let bp = bishop_targets_from(occ, sq);
    rk | bp
}

/// The squares the single bishop whose bit is `bishop_bit` attacks.
pub fn properly_mask_bishop_moves(bishop_bit: u64, block: &BitBoard) -> (res: BitBoard)
    requires
        is_single_bit(bishop_bit),
    ensures
        forall|t: u64|
            t < 64 ==> (#[trigger] bit_at(res.0, t) <==> bishop_reach(
                block.0,
                vstd::std_specs::bits::u64_trailing_zeros(bishop_bit) as int,
                t as int,
            )),
{
    proof {
        lemma_single_bit_tz(bishop_bit);
    }
    BitBoard(bishop_targets_from(block.0, bishop_bit.trailing_zeros() as u8))
}

/// The squares the single rook whose bit is `rook_bit` attacks.
pub fn properly_mask_rook_moves(rook_bit: u64, block: &BitBoard) -> (res: BitBoard)
    requires
        is_single_bit(rook_bit),
    ensures
        forall|t: u64|
            t < 64 ==> (#[trigger] bit_at(res.0, t) <==> rook_reach(
                block.0,
                vstd::std_specs::bits::u64_trailing_zeros(rook_bit) as int,
                t as int,
            )),
{
    proof {
        lemma_single_bit_tz(rook_bit);
    }
    BitBoard(rook_targets_from(block.0, rook_bit.trailing_zeros() as u8))
}

/// The squares the single queen whose bit is `queen_bit` attacks.
pub fn properly_mask_queen_moves(queen_bit: u64, block: &BitBoard) -> (res: BitBoard)
    requires
        is_single_bit(queen_bit),
    ensures
        forall|t: u64|
            t < 64 ==> (#[trigger] bit_at(res.0, t) <==> queen_reach(
                block.0,
                vstd::std_specs::bits::u64_trailing_zeros(queen_bit) as int,
                t as int,
            )),
{
    proof {
        lemma_single_bit_tz(queen_bit);
    }
    BitBoard(queen_targets_from(block.0, queen_bit.trailing_zeros() as u8))
}

/// The union of the attacks of all bishops in `bishops`.
pub fn properly_mask_all_bishop_moves(bishops: &BitBoard, blocks: &BitBoard) -> (res: BitBoard)
    ensures
        forall|t: u64|
            t < 64 ==> (#[trigger] bit_at(res.0, t) <==> exists|s: u64|
                s < 64 && #[trigger] bit_at(bishops.0, s) && bishop_reach(
                    blocks.0,
                    s as int,
                    t as int,
                )),
{
    BitBoard(mask_all_reach(bishops.0, blocks.0, Pieces::BISHOP))
}

/// The union of the attacks of all rooks in `rooks`.
pub fn properly_mask_all_rook_moves(rooks: &BitBoard, blocks: &BitBoard) -> (res: BitBoard)
    ensures
        forall|t: u64|
            t < 64 ==> (#[trigger] bit_at(res.0, t) <==> exists|s: u64|
                s < 64 && #[trigger] bit_at(rooks.0, s) && rook_reach(blocks.0, s as int, t as int)),
{
    BitBoard(mask_all_reach(rooks.0, blocks.0, Pieces::ROOK))
}

/// The union of the attacks of all queens in `queens`.
pub fn properly_mask_all_queen_moves(queens: &BitBoard, blocks: &BitBoard) -> (res: BitBoard)
    ensures
        forall|t: u64|
            t < 64 ==> (#[trigger] bit_at(res.0, t) <==> exists|s: u64|
                s < 64 && #[trigger] bit_at(queens.0, s) && queen_reach(
                    blocks.0,
                    s as int,
                    t as int,
                )),
{
    BitBoard(mask_all_reach(queens.0, blocks.0, Pieces::QUEEN))
}

/// The squares a bishop on square `bishop_sq` would attack on an empty board.
pub fn mask_bishop_attacks(bishop_sq: u64) -> (res: BitBoard)
    requires
        bishop_sq < 64,
    ensures
        forall|t: u64|
            t < 64 ==> (#[trigger] bit_at(res.0, t) <==> bishop_reach(
                0,
                bishop_sq as int,
                t as int,
            )),
{
    BitBoard(bishop_targets_from(0, bishop_sq as u8))
}

/// The squares a rook on square `rook_sq` would attack on an empty board.
pub fn mask_rook_attacks(rook_sq: u64) -> (res: BitBoard)
    requires
        rook_sq < 64,
    ensures
        forall|t: u64|
            t < 64 ==> (#[trigger] bit_at(res.0, t) <==> rook_reach(0, rook_sq as int, t as int)),
{
    BitBoard(rook_targets_from(0, rook_sq as u8))
}

} // verus!
