//! Attack generation: coordinate-level specifications of how each piece kind
//! reaches squares, and the bitboard mask functions computing them.

use vstd::prelude::*;
use crate::bits::{bit_at, sq_mask, is_single_bit, lemma_single_bit_tz, lemma_bit_set,
    lemma_bit_single, lemma_bit_none, lemma_bit_and, lemma_bit_or};
use crate::board::{BitBoard, Piece, Pieces, Team};

pub mod kings;
pub mod knights;
pub mod pawns;
pub mod sliding;

verus! {

/// The file of a square.
pub open spec fn sq_file(a: int) -> int {
    a % 8
}

/// The rank of a square.
pub open spec fn sq_rank(a: int) -> int {
    a / 8
}

/// The square at a file and rank.
pub open spec fn sq_at(f: int, r: int) -> int {
    r * 8 + f
}

/// Whether a file/rank pair lies on the board.
pub open spec fn on_board(f: int, r: int) -> bool {
    0 <= f < 8 && 0 <= r < 8
}

/// Absolute difference.
pub open spec fn dist(x: int, y: int) -> int {
    if x >= y {
        x - y
    } else {
        y - x
    }
}

/// A knight's jump from `a` to `b`.
pub open spec fn knight_reach(a: int, b: int) -> bool {
    &&& 0 <= a < 64
    &&& 0 <= b < 64
    &&& {
        let dx = dist(sq_file(a), sq_file(b));
        let dy = dist(sq_rank(a), sq_rank(b));
        (dx == 1 && dy == 2) || (dx == 2 && dy == 1)
    }
}

/// A king's step from `a` to `b`.
pub open spec fn king_reach(a: int, b: int) -> bool {
    &&& 0 <= a < 64
    &&& 0 <= b < 64
    &&& a != b
    &&& dist(sq_file(a), sq_file(b)) <= 1
    &&& dist(sq_rank(a), sq_rank(b)) <= 1
}

/// The rank direction a side's pawns advance in.
pub open spec fn pawn_dir(team: Team) -> int {
    if team == 0 {
        1int
    } else {
        -1int
    }
}

/// The rank a side's pawns start on.
pub open spec fn pawn_start_rank(team: Team) -> int {
    if team == 0 {
        1int
    } else {
        6int
    }
}

/// A pawn's capture threat: one square diagonally forward.
pub open spec fn pawn_threat(team: Team, a: int, b: int) -> bool {
    &&& 0 <= a < 64
    &&& 0 <= b < 64
    &&& sq_rank(b) == sq_rank(a) + pawn_dir(team)
    &&& dist(sq_file(a), sq_file(b)) == 1
}

/// A pawn's quiet advance: one square forward onto an empty square, or two
/// from its start rank through an empty square.
pub open spec fn pawn_march(team: Team, empty: u64, a: int, b: int) -> bool {
    &&& 0 <= a < 64
    &&& 0 <= b < 64
    &&& sq_file(b) == sq_file(a)
    &&& bit_at(empty, b as u64)
    &&& {
        ||| sq_rank(b) == sq_rank(a) + pawn_dir(team)
        ||| (sq_rank(a) == pawn_start_rank(team) && sq_rank(b) == sq_rank(a) + 2 * pawn_dir(team)
            && bit_at(empty, sq_at(sq_file(a), sq_rank(a) + pawn_dir(team)) as u64))
    }
}

/// A pawn's capture: a threatened square holding an opposing piece, or the
/// en-passant target square.
pub open spec fn pawn_capture(
    team: Team,
    enemy: u64,
    ep: Option<usize>,
    a: int,
    b: int,
) -> bool {
    pawn_threat(team, a, b) && (bit_at(enemy, b as u64) || ep == Some(b as usize))
}

/// Walking from file `f`, rank `r` in direction (df, dr): `b` is reached if it
/// is the next square, or the next square is on the board, not occupied, and
/// the walk goes on.  The walk stops right after the first occupied square.
pub open spec fn dir_reach_from(
    occ: u64,
    f: int,
    r: int,
    df: int,
    dr: int,
    b: int,
    fuel: nat,
) -> bool
    decreases fuel,
{
    fuel > 0 && {
        let nf = f + df;
        let nr = r + dr;
        &&& on_board(nf, nr)
        &&& (b == sq_at(nf, nr) || (!bit_at(occ, sq_at(nf, nr) as u64) && dir_reach_from(
            occ,
            nf,
            nr,
            df,
            dr,
            b,
            (fuel - 1) as nat,
        )))
    }
}

/// A sliding attack from `a` to `b` in direction (df, dr), stopping on the
/// first blocker in `occ` (the blocker's square is included).
pub open spec fn dir_reach(occ: u64, a: int, df: int, dr: int, b: int) -> bool {
    dir_reach_from(occ, sq_file(a), sq_rank(a), df, dr, b, 7)
}

/// A bishop's attack: the four diagonal rays.
pub open spec fn bishop_reach(occ: u64, a: int, b: int) -> bool {
    ||| dir_reach(occ, a, 1, 1, b)
    ||| dir_reach(occ, a, 1, -1, b)
    ||| dir_reach(occ, a, -1, 1, b)
    ||| dir_reach(occ, a, -1, -1, b)
}

/// A rook's attack: the four straight rays.
pub open spec fn rook_reach(occ: u64, a: int, b: int) -> bool {
    ||| dir_reach(occ, a, 1, 0, b)
    ||| dir_reach(occ, a, -1, 0, b)
    ||| dir_reach(occ, a, 0, 1, b)
    ||| dir_reach(occ, a, 0, -1, b)
}

/// A queen's attack: all eight rays.
pub open spec fn queen_reach(occ: u64, a: int, b: int) -> bool {
    rook_reach(occ, a, b) || bishop_reach(occ, a, b)
}

/// How a non-pawn piece kind attacks, given the total occupancy.
pub open spec fn step_slide_reach(kind: Piece, occ: u64, a: int, b: int) -> bool {
    if kind == 1 {
        bishop_reach(occ, a, b)
    } else if kind == 2 {
        knight_reach(a, b)
    } else if kind == 3 {
        rook_reach(occ, a, b)
    } else if kind == 4 {
        queen_reach(occ, a, b)
    } else {
        king_reach(a, b)
    }
}

/// Every destination of the piece `kind` of side `team` standing on square
/// `a`: quiet pawn moves and pawn captures for pawns, attacks otherwise
/// (castling is generated separately).
pub open spec fn piece_dests(
    kind: Piece,
    team: Team,
    occ: u64,
    empty: u64,
    opponent: u64,
    ep: Option<usize>,
    a: int,
    b: int,
) -> bool {
    if kind == 0 {
        pawn_march(team, empty, a, b) || pawn_capture(team, opponent, ep, a, b)
    } else {
        step_slide_reach(kind, occ, a, b)
    }
}


/// The set squares of `bitboard`, each exactly once, in ascending order.
pub fn bits_of(bitboard: u64) -> (r: Vec<u64>)
    ensures
        forall|i: int| 0 <= i < r.len() ==> #[trigger] r[i] < 64 && bit_at(bitboard, r[i]),
        forall|s: u64| s < 64 && #[trigger] bit_at(bitboard, s) ==> r@.contains(s),
        forall|i: int, j: int| 0 <= i < j < r.len() ==> #[trigger] r[i] < #[trigger] r[j],
{
    let mut r: Vec<u64> = Vec::new();
    let mut s: u64 = 0;
    while s < 64
        invariant
            s <= 64,
            forall|i: int| 0 <= i < r.len() ==> #[trigger] r[i] < 64 && bit_at(bitboard, r[i]),
            forall|s2: u64| s2 < s && #[trigger] bit_at(bitboard, s2) ==> r@.contains(s2),
            forall|i: int| 0 <= i < r.len() ==> #[trigger] r[i] < s,
            forall|i: int, j: int| 0 <= i < j < r.len() ==> #[trigger] r[i] < #[trigger] r[j],
        decreases 64 - s,
    {
        let ghost r0 = r@;
        if (bitboard >> s) & 1 == 1 {
            r.push(s);
        }
        proof {
            assert forall|s2: u64| s2 < s + 1 && #[trigger] bit_at(bitboard, s2) implies r@.contains(
                s2,
            ) by {
                if s2 == s {
                    assert(r@[r@.len() - 1] == s2);
                } else {
                    let i = choose|i: int| 0 <= i < r0.len() && r0[i] == s2;
                    assert(r@[i] == s2);
                }
            }
        }
        s = s + 1;
    }
    r
}

/// The squares a non-pawn piece on `sq` attacks.
pub(crate) fn mask_reach_from(occ: u64, sq: u8, kind: Piece) -> (res: u64)
    requires
        sq < 64,
        1 <= kind <= 5,
    ensures
        forall|t: u64|
            t < 64 ==> (#[trigger] bit_at(res, t) <==> step_slide_reach(
                kind,
                occ,
                sq as int,
                t as int,
            )),
{
    if kind == Pieces::KNIGHT {
        knights::knight_targets_from(sq)
    } else if kind == Pieces::KING {
        kings::king_targets_from(sq)
    } else if kind == Pieces::BISHOP {
        sliding::bishop_targets_from(occ, sq)
    } else if kind == Pieces::ROOK {
        sliding::rook_targets_from(occ, sq)
    } else {
        sliding::queen_targets_from(occ, sq)
    }
}

/// The union of the attacks of every non-pawn piece of one kind in `xs`.
pub(crate) fn mask_all_reach(xs: u64, occ: u64, kind: Piece) -> (res: u64)
    requires
        1 <= kind <= 5,
    ensures
        forall|t: u64|
            t < 64 ==> (#[trigger] bit_at(res, t) <==> exists|s: u64|
                s < 64 && #[trigger] bit_at(xs, s) && step_slide_reach(
                    kind,
                    occ,
                    s as int,
                    t as int,
                )),
{
    proof {
        lemma_bit_or();
        lemma_bit_none();
    }
    let mut res: u64 = 0;
    let mut s: u64 = 0;
    while s < 64
        invariant
            s <= 64,
            1 <= kind <= 5,
            forall|t: u64|
                t < 64 ==> (#[trigger] bit_at(res, t) <==> exists|s2: u64|
                    s2 < s && #[trigger] bit_at(xs, s2) && step_slide_reach(
                        kind,
                        occ,
                        s2 as int,
                        t as int,
                    )),
        decreases 64 - s,
    {
        if (xs >> s) & 1 == 1 {
            let ghost res0 = res;
            let from = mask_reach_from(occ, s as u8, kind);
            res = res | from;
            proof {
                lemma_bit_or();
                assert(bit_at(xs, s));
                assert forall|t: u64| t < 64 implies (#[trigger] bit_at(res, t) <==> exists|s2: u64|
                    s2 < s + 1 && #[trigger] bit_at(xs, s2) && step_slide_reach(
                        kind,
                        occ,
                        s2 as int,
                        t as int,
                    )) by {
                    if bit_at(res, t) {
                        if bit_at(res0, t) {
                            let w = choose|s2: u64|
                                s2 < s && #[trigger] bit_at(xs, s2) && step_slide_reach(
                                    kind,
                                    occ,
                                    s2 as int,
                                    t as int,
                                );
                            assert(w < s + 1 && bit_at(xs, w) && step_slide_reach(
                                kind,
                                occ,
                                w as int,
                                t as int,
                            ));
                        } else {
                            assert(bit_at(from, t));
                            assert(s < s + 1 && bit_at(xs, s) && step_slide_reach(
                                kind,
                                occ,
                                s as int,
                                t as int,
                            ));
                        }
                    } else {
                        assert(!bit_at(res0, t) && !bit_at(from, t));
                    }
                }
            }
        } else {
            proof {
                assert(!bit_at(xs, s));
                assert forall|t: u64| t < 64 implies (#[trigger] bit_at(res, t) <==> exists|s2: u64|
                    s2 < s + 1 && #[trigger] bit_at(xs, s2) && step_slide_reach(
                        kind,
                        occ,
                        s2 as int,
                        t as int,
                    )) by {
                    if bit_at(res, t) {
                        let w = choose|s2: u64|
                            s2 < s && #[trigger] bit_at(xs, s2) && step_slide_reach(
                                kind,
                                occ,
                                s2 as int,
                                t as int,
                            );
                        assert(w < s + 1 && bit_at(xs, w) && step_slide_reach(
                            kind,
                            occ,
                            w as int,
                            t as int,
                        ));
                    } else {
                        if exists|s2: u64|
                            s2 < s + 1 && #[trigger] bit_at(xs, s2) && step_slide_reach(
                                kind,
                                occ,
                                s2 as int,
                                t as int,
                            ) {
                            let w = choose|s2: u64|
                                s2 < s + 1 && #[trigger] bit_at(xs, s2) && step_slide_reach(
                                    kind,
                                    occ,
                                    s2 as int,
                                    t as int,
                                );
                            assert(w != s);
                            assert(w < s && bit_at(xs, w) && step_slide_reach(
                                kind,
                                occ,
                                w as int,
                                t as int,
                            ));
                            assert(false);
                        }
                    }
                }
            }
        }
        s = s + 1;
    }
    res
}

/// The pseudo-legal destinations of the single piece whose bit is `bit`:
/// marches and captures for a pawn, attacks for the rest, masked by the
/// opposing threats for a king when they are supplied.
pub fn individually_mask_piece_moves(
    bit: u64,
    piece: Piece,
    team: Team,
    empty_spaces: &BitBoard,
    occupied_spaces: &BitBoard,
    opponent_pieces: &BitBoard,
    en_passant_square: &Option<usize>,
    opponent_threats: Option<&BitBoard>,
) -> (res: BitBoard)
    requires
        is_single_bit(bit),
        piece < 6,
        team < 2,
        empty_spaces.0 == !occupied_spaces.0,
    ensures
        forall|t: u64|
            t < 64 ==> (#[trigger] bit_at(res.0, t) <==> {
                &&& piece_dests(
                    piece,
                    team,
                    occupied_spaces.0,
                    empty_spaces.0,
                    opponent_pieces.0,
                    *en_passant_square,
                    vstd::std_specs::bits::u64_trailing_zeros(bit) as int,
                    t as int,
                )
                &&& (piece == 5 ==> match opponent_threats {
                    Some(th) => !bit_at(th.0, t),
                    None => true,
                })
            }),
{
    proof {
        lemma_single_bit_tz(bit);
    }
    let sq = bit.trailing_zeros() as u8;
    match piece {
        0 => BitBoard(
            pawns::pawn_targets_from(
                sq,
                2,
                empty_spaces.0,
                opponent_pieces.0,
                en_passant_square,
                team,
            ),
        ),
        5 => kings::king_dests_from(sq, opponent_threats),
        _ => BitBoard(mask_reach_from(occupied_spaces.0, sq, piece)),
    }
}

} // verus!
