//! Pawn move, capture and threat masks.

use vstd::prelude::*;
use crate::bits::{bit_at, is_single_bit, lemma_single_bit_tz, lemma_bit_set, lemma_bit_single,
    lemma_bit_none, lemma_bit_or, sq_mask};
use crate::board::{BitBoard, Team};
use crate::math::{pawn_capture, pawn_march, pawn_threat, pawn_dir, pawn_start_rank, sq_file,
    sq_rank};

verus! {

/// What a pawn mask asks for: quiet marches, captures, both, or the bare
/// capture threats regardless of occupancy.
pub(crate) open spec fn pawn_mode_dest(
    mode: u8,
    team: Team,
    empty: u64,
    enemy: u64,
    ep: Option<usize>,
    a: int,
    b: int,
) -> bool {
    if mode == 0 {
        pawn_march(team, empty, a, b)
    } else if mode == 1 {
        pawn_capture(team, enemy, ep, a, b)
    } else if mode == 2 {
        pawn_march(team, empty, a, b) || pawn_capture(team, enemy, ep, a, b)
    } else {
        pawn_threat(team, a, b)
    }
}

/// The quiet marches of a single pawn on `sq`.
pub(crate) fn pawn_march_targets(sq: u8, empty: u64, team: Team) -> (res: u64)
    requires
        sq < 64,
    ensures
        forall|t: u64|
            t < 64 ==> (#[trigger] bit_at(res, t) <==> pawn_march(
                team,
                empty,
                sq as int,
                t as int,
            )),
{
    proof {
        lemma_bit_none();
        lemma_bit_set();
        lemma_bit_single();
    }
    let f = (sq % 8) as i16;
    let r = (sq / 8) as i16;
    let d: i16 = if team == 0 { 1 } else { -1 };
    let mut res: u64 = 0;
    let r1 = r + d;
    if r1 >= 0 && r1 < 8 {
        let t1 = (r1 * 8 + f) as u64;
        if (empty >> t1) & 1 == 1 {
            proof {
                assert(res | (1u64 << t1) == res | sq_mask(t1));
            }
            res = res | (1u64 << t1);
            let start = (team == 0 && r == 1) || (team != 0 && r == 6);
            if start {
                let r2 = r + 2 * d;
                let t2 = (r2 * 8 + f) as u64;
                if (empty >> t2) & 1 == 1 {
                    proof {
                        assert(res | (1u64 << t2) == res | sq_mask(t2));
                    }
                    res = res | (1u64 << t2);
                }
            }
        }
    }
    proof {
        assert forall|t: u64| t < 64 implies (#[trigger] bit_at(res, t) <==> pawn_march(
            team,
            empty,
            sq as int,
            t as int,
        )) by {
            let ti = t as int;
            assert(ti == 8 * sq_rank(ti) + sq_file(ti));
            assert(sq as int == 8 * (r as int) + (f as int));
        }
    }
    res
}

/// The capture squares of a single pawn on `sq`: with `threats_only`, every
/// diagonally forward square; otherwise only those holding an opposing piece
/// or named as the en-passant target.
pub(crate) fn pawn_capture_targets(
    sq: u8,
    enemy: u64,
    ep: &Option<usize>,
    team: Team,
    threats_only: bool,
) -> (res: u64)
    requires
        sq < 64,
    ensures
        forall|t: u64|
            t < 64 ==> (#[trigger] bit_at(res, t) <==> if threats_only {
                pawn_threat(team, sq as int, t as int)
            } else {
                pawn_capture(team, enemy, *ep, sq as int, t as int)
            }),
{
    proof {
        lemma_bit_none();
        lemma_bit_set();
        lemma_bit_single();
    }
    let f = (sq % 8) as i16;
    let r = (sq / 8) as i16;
    let d: i16 = if team == 0 { 1 } else { -1 };
    let mut res: u64 = 0;
    let r1 = r + d;
    if r1 >= 0 && r1 < 8 {
        let nf_l = f - 1;
        if nf_l >= 0 {
            let t = (r1 * 8 + nf_l) as u64;
            let wanted = threats_only || (enemy >> t) & 1 == 1 || (match ep {
                Some(e) => *e == t as usize,
                None => false,
            });
            if wanted {
                proof {
                    assert(res | (1u64 << t) == res | sq_mask(t));
                }
                res = res | (1u64 << t);
            }
        }
        let nf_r = f + 1;
        if nf_r < 8 {
            let t = (r1 * 8 + nf_r) as u64;
            let wanted = threats_only || (enemy >> t) & 1 == 1 || (match ep {
                Some(e) => *e == t as usize,
                None => false,
            });
            if wanted {
                proof {
                    assert(res | (1u64 << t) == res | sq_mask(t));
                }
                res = res | (1u64 << t);
            }
        }
    }
    proof {
        assert forall|t: u64| t < 64 implies (#[trigger] bit_at(res, t) <==> if threats_only {
            pawn_threat(team, sq as int, t as int)
        } else {
            pawn_capture(team, enemy, *ep, sq as int, t as int)
        }) by {
            let ti = t as int;
            assert(ti == 8 * sq_rank(ti) + sq_file(ti));
            assert(sq as int == 8 * (r as int) + (f as int));
        }
    }
    res
}

/// The requested destinations of a single pawn on `sq`.
pub(crate) fn pawn_targets_from(
    sq: u8,
    mode: u8,
    empty: u64,
    enemy: u64,
    ep: &Option<usize>,
    team: Team,
) -> (res: u64)
    requires
        sq < 64,
    ensures
        forall|t: u64|
            t < 64 ==> (#[trigger] bit_at(res, t) <==> pawn_mode_dest(
                mode,
                team,
                empty,
                enemy,
                *ep,
                sq as int,
                t as int,
            )),
{
    proof {
        lemma_bit_or();
    }
    if mode == 0 {
        pawn_march_targets(sq, empty, team)
    } else if mode == 1 {
        pawn_capture_targets(sq, enemy, ep, team, false)
    } else if mode == 2 {
        let m = pawn_march_targets(sq, empty, team);
        let c = pawn_capture_targets(sq, enemy, ep, team, false);
        m | c
    } else {
        pawn_capture_targets(sq, enemy, ep, team, true)
    }
}

/// The union of the requested destinations of all pawns in `xs`.
pub(crate) fn mask_all_pawn(
    xs: u64,
    mode: u8,
    empty: u64,
    enemy: u64,
    ep: &Option<usize>,
    team: Team,
) -> (res: u64)
    ensures
        forall|t: u64|
            t < 64 ==> (#[trigger] bit_at(res, t) <==> exists|s: u64|
                s < 64 && #[trigger] bit_at(xs, s) && pawn_mode_dest(
                    mode,
                    team,
                    empty,
                    enemy,
                    *ep,
                    s as int,
                    t as int,
                )),
{
    proof {
        lemma_bit_or();
        lemma_bit_none();
    }
    let mut res: u64 = 0;
    let mut s: u64 = 0;
    while s < 64
        invariant
            s <= 64,
            forall|t: u64|
                t < 64 ==> (#[trigger] bit_at(res, t) <==> exists|s2: u64|
                    s2 < s && #[trigger] bit_at(xs, s2) && pawn_mode_dest(
                        mode,
                        team,
                        empty,
                        enemy,
                        *ep,
                        s2 as int,
                        t as int,
                    )),
        decreases 64 - s,
    {
        if (xs >> s) & 1 == 1 {
            let ghost res0 = res;
            let from = pawn_targets_from(s as u8, mode, empty, enemy, ep, team);
            res = res | from;
            proof {
                lemma_bit_or();
                assert(bit_at(xs, s));
                assert forall|t: u64| t < 64 implies (#[trigger] bit_at(res, t) <==> exists|s2: u64|
                    s2 < s + 1 && #[trigger] bit_at(xs, s2) && pawn_mode_dest(
                        mode,
                        team,
                        empty,
                        enemy,
                        *ep,
                        s2 as int,
                        t as int,
                    )) by {
                    if bit_at(res, t) {
                        if bit_at(res0, t) {
                            let w = choose|s2: u64|
                                s2 < s && #[trigger] bit_at(xs, s2) && pawn_mode_dest(
                                    mode,
                                    team,
                                    empty,
                                    enemy,
                                    *ep,
                                    s2 as int,
                                    t as int,
                                );
                            assert(w < s + 1 && bit_at(xs, w) && pawn_mode_dest(
                                mode,
                                team,
                                empty,
                                enemy,
                                *ep,
                                w as int,
                                t as int,
                            ));
                        } else {
                            assert(bit_at(from, t));
                            assert(s < s + 1 && bit_at(xs, s) && pawn_mode_dest(
                                mode,
                                team,
                                empty,
                                enemy,
                                *ep,
                                s as int,
                                t as int,
                            ));
                        }
                    } else {
                        assert(!bit_at(res0, t) && !bit_at(from, t));
                    }
                }
            }
        } else {
            proof {
                assert(!bit_at(xs, s));
                assert forall|t: u64| t < 64 implies (#[trigger] bit_at(res, t) <==> exists|s2: u64|
                    s2 < s + 1 && #[trigger] bit_at(xs, s2) && pawn_mode_dest(
                        mode,
                        team,
                        empty,
                        enemy,
                        *ep,
                        s2 as int,
                        t as int,
                    )) by {
                    if bit_at(res, t) {
                        let w = choose|s2: u64|
                            s2 < s && #[trigger] bit_at(xs, s2) && pawn_mode_dest(
                                mode,
                                team,
                                empty,
                                enemy,
                                *ep,
                                s2 as int,
                                t as int,
                            );
                        assert(w < s + 1 && bit_at(xs, w) && pawn_mode_dest(
                            mode,
                            team,
                            empty,
                            enemy,
                            *ep,
                            w as int,
                            t as int,
                        ));
                    } else {
                        if exists|s2: u64|
                            s2 < s + 1 && #[trigger] bit_at(xs, s2) && pawn_mode_dest(
                                mode,
                                team,
                                empty,
                                enemy,
                                *ep,
                                s2 as int,
                                t as int,
                            ) {
                            let w = choose|s2: u64|
                                s2 < s + 1 && #[trigger] bit_at(xs, s2) && pawn_mode_dest(
                                    mode,
                                    team,
                                    empty,
                                    enemy,
                                    *ep,
                                    s2 as int,
                                    t as int,
                                );
                            assert(w != s);
                            assert(w < s && bit_at(xs, w) && pawn_mode_dest(
                                mode,
                                team,
                                empty,
                                enemy,
                                *ep,
                                w as int,
                                t as int,
                            ));
                            assert(false);
                        }
                    }
                }
            }
        }
        s = s + 1;
    }
    res
}

/// Marches and captures of the single pawn whose bit is `pawn_bit`.
pub fn mask_pawn_moves(
    pawn_bit: u64,
    empty: &BitBoard,
    opponent_pieces: &BitBoard,
    en_passant_square: &Option<usize>,
    team: Team,
) -> (res: BitBoard)
    requires
        is_single_bit(pawn_bit),
    ensures
        forall|t: u64|
            t < 64 ==> (#[trigger] bit_at(res.0, t) <==> (pawn_march(
                team,
                empty.0,
                vstd::std_specs::bits::u64_trailing_zeros(pawn_bit) as int,
                t as int,
            ) || pawn_capture(
                team,
                opponent_pieces.0,
                *en_passant_square,
                vstd::std_specs::bits::u64_trailing_zeros(pawn_bit) as int,
                t as int,
            ))),
{
    proof {
        lemma_single_bit_tz(pawn_bit);
    }
    let sq = pawn_bit.trailing_zeros() as u8;
    BitBoard(pawn_targets_from(sq, 2, empty.0, opponent_pieces.0, en_passant_square, team))
}

/// Quiet marches of the single pawn whose bit is `pawn_bit`.
pub fn mask_pawn_march_moves(pawn_bit: u64, empty: &BitBoard, team: Team) -> (res: BitBoard)
    requires
        is_single_bit(pawn_bit),
    ensures
        forall|t: u64|
            t < 64 ==> (#[trigger] bit_at(res.0, t) <==> pawn_march(
                team,
                empty.0,
                vstd::std_specs::bits::u64_trailing_zeros(pawn_bit) as int,
                t as int,
            )),
{
    proof {
        lemma_single_bit_tz(pawn_bit);
    }
    let sq = pawn_bit.trailing_zeros() as u8;
    BitBoard(pawn_targets_from(sq, 0, empty.0, 0, &None, team))
}

/// Captures of the single pawn whose bit is `pawn_bit`.
pub fn mask_pawn_capture_moves(
    pawn_bit: u64,
    enemy_pieces: &BitBoard,
    en_passant_square: &Option<usize>,
    team: Team,
) -> (res: BitBoard)
    requires
        is_single_bit(pawn_bit),
    ensures
        forall|t: u64|
            t < 64 ==> (#[trigger] bit_at(res.0, t) <==> pawn_capture(
                team,
                enemy_pieces.0,
                *en_passant_square,
                vstd::std_specs::bits::u64_trailing_zeros(pawn_bit) as int,
                t as int,
            )),
{
    proof {
        lemma_single_bit_tz(pawn_bit);
    }
    let sq = pawn_bit.trailing_zeros() as u8;
    BitBoard(pawn_targets_from(sq, 1, 0, enemy_pieces.0, en_passant_square, team))
}

/// Marches and captures of all pawns in `pawns`.
pub fn mask_all_pawn_moves(
    pawns: &BitBoard,
    empty: &BitBoard,
    enemy_pieces: &BitBoard,
    en_passant_square: &Option<usize>,
    team: Team,
) -> (res: BitBoard)
    ensures
        forall|t: u64|
            t < 64 ==> (#[trigger] bit_at(res.0, t) <==> exists|s: u64|
                s < 64 && #[trigger] bit_at(pawns.0, s) && (pawn_march(
                    team,
                    empty.0,
                    s as int,
                    t as int,
                ) || pawn_capture(
                    team,
                    enemy_pieces.0,
                    *en_passant_square,
                    s as int,
                    t as int,
                ))),
{
    BitBoard(mask_all_pawn(pawns.0, 2, empty.0, enemy_pieces.0, en_passant_square, team))
}

/// Quiet marches of all pawns in `pawns`.
pub fn mask_all_pawn_march_moves(pawns: &BitBoard, empty: &BitBoard, team: Team) -> (res: BitBoard)
    ensures
        forall|t: u64|
            t < 64 ==> (#[trigger] bit_at(res.0, t) <==> exists|s: u64|
                s < 64 && #[trigger] bit_at(pawns.0, s) && pawn_march(
                    team,
                    empty.0,
                    s as int,
                    t as int,
                )),
{
    BitBoard(mask_all_pawn(pawns.0, 0, empty.0, 0, &None, team))
}

/// Captures of all pawns in `pawns`.
pub fn mask_all_pawn_capture_moves(
    pawns: &BitBoard,
    enemy_pieces: &BitBoard,
    en_passant_square: &Option<usize>,
    team: Team,
) -> (res: BitBoard)
    ensures
        forall|t: u64|
            t < 64 ==> (#[trigger] bit_at(res.0, t) <==> exists|s: u64|
                s < 64 && #[trigger] bit_at(pawns.0, s) && pawn_capture(
                    team,
                    enemy_pieces.0,
                    *en_passant_square,
                    s as int,
                    t as int,
                )),
{
    BitBoard(mask_all_pawn(pawns.0, 1, 0, enemy_pieces.0, en_passant_square, team))
}

/// The squares all pawns in `pawns` threaten to capture into, whatever stands
/// there.
pub fn mask_all_pawn_threats(pawns: &BitBoard, team: Team) -> (res: BitBoard)
    ensures
        forall|t: u64|
            t < 64 ==> (#[trigger] bit_at(res.0, t) <==> exists|s: u64|
                s < 64 && #[trigger] bit_at(pawns.0, s) && pawn_threat(team, s as int, t as int)),
{
    BitBoard(mask_all_pawn(pawns.0, 3, 0, 0, &None, team))
}

} // verus!
