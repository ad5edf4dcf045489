//! The full position: bitboards, mailbox and scalar state, the consistency
//! invariant that ties them together, and the reversible make/unmake moves.

use vstd::prelude::*;
use crate::bits::{bit_at, sq_mask, lemma_bit_clear, lemma_bit_set, lemma_bit_or, lemma_bit_and,
    lemma_bit_single, lemma_bit_none, lemma_bit_zero, lemma_bit_ext};
use crate::board::{BitBoard, BitPosition, CompletedMove, GamePiece, MailBox, Piece, Pieces, Team,
    Teams, get_opposite_team, spec_game_piece, spec_opposite, spec_piece_kind, spec_piece_team};
use crate::board::state::spec_castling_bit;
use crate::bits::{count_bits, lemma_count_bits_bound, lemma_bit_not, lemma_nonzero_bit};
use crate::engine::{get_piece_value, spec_piece_value};
use crate::bits::{is_single_bit, lemma_single_bit_tz, lemma_sq_mask_inj};
use crate::math::{bishop_reach, king_reach, knight_reach, pawn_threat, piece_dests, queen_reach,
    rook_reach};
use crate::math::individually_mask_piece_moves;
use crate::math::kings::{calculate_king_castling_moves, lemma_castle_dest_squares};
use crate::math::kings::{BLACK_KINGSIDE_CASTLE_BLOCKS, BLACK_KINGSIDE_KING_CASTLE,
    BLACK_QUEENSIDE_CASTLE_BLOCKS, BLACK_QUEENSIDE_KING_CASTLE, WHITE_KINGSIDE_CASTLE_BLOCKS,
    WHITE_KINGSIDE_KING_CASTLE, WHITE_QUEENSIDE_CASTLE_BLOCKS, WHITE_QUEENSIDE_KING_CASTLE};
use crate::game::Vector;
use crate::board::state::ChessState;

verus! {

/// The 0x88 mailbox slot of bitboard square `sq`.
pub open spec fn spec_mb_index(sq: int) -> int {
    (sq / 8) * 16 + sq % 8
}

/// The mathematical content of a position: twelve square sets, two occupancy
/// sets, the mailbox and the scalar state.
#[verifier::ext_equal]
pub ghost struct BoardView {
    pub pieces: Seq<Seq<u64>>,
    pub sides: Seq<u64>,
    pub mailbox: Seq<Option<GamePiece>>,
    pub castling: u8,
    pub ep: Option<usize>,
    pub turn: usize,
}

/// The square set of side `s`'s pieces of kind `k`.
pub open spec fn bv_piece(v: BoardView, s: int, k: int) -> u64 {
    v.pieces[s][k]
}

/// The square set of side `s`'s occupancy.
pub open spec fn bv_side(v: BoardView, s: int) -> u64 {
    v.sides[s]
}

/// The mailbox content of slot `i`.
pub open spec fn bv_slot(v: BoardView, i: int) -> Option<GamePiece> {
    v.mailbox[i]
}

/// The piece standing on square `sq`.
pub open spec fn bv_at(v: BoardView, sq: u64) -> Option<GamePiece> {
    v.mailbox[spec_mb_index(sq as int)]
}

/// The invariant of a position view.
///
/// The mailbox and the piece boards describe the same board, each side's
/// occupancy is the union of its piece boards, off-board mailbox slots are
/// empty, and the scalars are in range.
pub open spec fn bv_wf(v: BoardView) -> bool {
    &&& v.pieces.len() == 2
    &&& v.pieces[0].len() == 6
    &&& v.pieces[1].len() == 6
    &&& v.sides.len() == 2
    &&& v.mailbox.len() == 128
    &&& forall|s: int, k: int, sq: u64|
        0 <= s < 2 && 0 <= k < 6 && sq < 64 ==> (#[trigger] bit_at(bv_piece(v, s, k), sq)
            <==> bv_at(v, sq) == Some(spec_game_piece(k as usize, s as usize)))
    &&& forall|s: int, sq: u64|
        0 <= s < 2 && sq < 64 ==> (#[trigger] bit_at(bv_side(v, s), sq) <==> (bit_at(
            bv_piece(v, s, 0),
            sq,
        ) || bit_at(bv_piece(v, s, 1), sq) || bit_at(bv_piece(v, s, 2), sq) || bit_at(
            bv_piece(v, s, 3),
            sq,
        ) || bit_at(bv_piece(v, s, 4), sq) || bit_at(bv_piece(v, s, 5), sq)))
    &&& forall|i: int| 0 <= i < 128 && i % 16 >= 8 ==> bv_slot(v, i) is None
    &&& forall|i: int|
        0 <= i < 128 ==> ((#[trigger] bv_slot(v, i)) matches Some(gp) ==> spec_piece_team(gp) < 2)
    &&& v.turn < 2
    &&& (v.ep matches Some(e) ==> e < 64)
}

/// The view after square `sq` was emptied.
pub open spec fn bv_clear(v: BoardView, sq: u64) -> BoardView {
    match bv_at(v, sq) {
        None => v,
        Some(gp) => {
            let s = spec_piece_team(gp) as int;
            let k = spec_piece_kind(gp) as int;
            BoardView {
                pieces: v.pieces.update(s, v.pieces[s].update(k, v.pieces[s][k] & !sq_mask(sq))),
                sides: v.sides.update(s, v.sides[s] & !sq_mask(sq)),
                mailbox: v.mailbox.update(spec_mb_index(sq as int), None),
                ..v
            }
        },
    }
}

/// The view after `gp` was placed on the empty square `sq`.
pub open spec fn bv_put(v: BoardView, sq: u64, gp: GamePiece) -> BoardView {
    let s = spec_piece_team(gp) as int;
    let k = spec_piece_kind(gp) as int;
    BoardView {
        pieces: v.pieces.update(s, v.pieces[s].update(k, v.pieces[s][k] | sq_mask(sq))),
        sides: v.sides.update(s, v.sides[s] | sq_mask(sq)),
        mailbox: v.mailbox.update(spec_mb_index(sq as int), Some(gp)),
        ..v
    }
}


/// The back rank of a side: where its pawns promote.
pub open spec fn spec_back_rank(team: usize) -> int {
    if team == 0 {
        7int
    } else {
        0int
    }
}

/// The corner square on which the rook of `team` for wing `side` starts
/// (side 0 is the king's wing, 1 the queen's).
pub open spec fn spec_corner(team: usize, side: usize) -> u64 {
    if team == 0 {
        if side == 0 {
            7u64
        } else {
            0u64
        }
    } else {
        if side == 0 {
            63u64
        } else {
            56u64
        }
    }
}

/// The piece that is moving.
pub open spec fn bv_mover(v: BoardView, from: u64) -> GamePiece {
    bv_at(v, from)->Some_0
}

/// A pawn advancing two ranks.
pub open spec fn spec_is_double_push(v: BoardView, from: u64, to: u64) -> bool {
    spec_piece_kind(bv_mover(v, from)) == 0 && (to == from + 16 || from == to + 16)
}

/// A pawn moving diagonally onto an empty square: the en-passant capture.
pub open spec fn spec_is_ep_capture(v: BoardView, from: u64, to: u64) -> bool {
    spec_piece_kind(bv_mover(v, from)) == 0 && from % 8 != to % 8 && bv_at(v, to) is None
}

/// A king moving two files: castling.
pub open spec fn spec_is_castle(v: BoardView, from: u64, to: u64) -> bool {
    spec_piece_kind(bv_mover(v, from)) == 5 && (to == from + 2 || from == to + 2)
}

/// A pawn reaching its back rank: promotion.
pub open spec fn spec_is_promotion(v: BoardView, from: u64, to: u64) -> bool {
    spec_piece_kind(bv_mover(v, from)) == 0 && to / 8 == spec_back_rank(
        spec_piece_team(bv_mover(v, from)),
    )
}

/// The square of the pawn captured en passant: the capturer's rank, the
/// target's file.
pub open spec fn spec_ep_victim(from: u64, to: u64) -> u64 {
    (8 * (from / 8) + to % 8) as u64
}

/// Where the rook stands before castling.
pub open spec fn spec_rook_from(from: u64, to: u64) -> u64 {
    if to == from + 2 {
        (from + 3) as u64
    } else {
        (from - 4) as u64
    }
}

/// Where the rook lands after castling.
pub open spec fn spec_rook_to(from: u64, to: u64) -> u64 {
    if to == from + 2 {
        (from + 1) as u64
    } else {
        (from - 1) as u64
    }
}

/// The structural conditions under which `play_move` applies a move: a piece
/// stands on the origin, the target does not hold a piece of its own side,
/// and the en-passant and castling shapes find the board as they assume it.
pub open spec fn play_ok(v: BoardView, from: u64, to: u64) -> bool {
    &&& from < 64 && to < 64 && from != to
    &&& bv_at(v, from) is Some
    &&& (bv_at(v, to) matches Some(t) ==> spec_piece_team(t) != spec_piece_team(bv_mover(v, from)))
    &&& (spec_is_ep_capture(v, from, to) ==> {
        &&& (to % 8 == from % 8 + 1 || from % 8 == to % 8 + 1)
        &&& (to / 8 == from / 8 + 1 || from / 8 == to / 8 + 1)
        &&& bv_at(v, spec_ep_victim(from, to)) == Some(
            GamePiece::Pawn(spec_opposite(spec_piece_team(bv_mover(v, from)))),
        )
    })
    &&& (spec_is_castle(v, from, to) ==> {
        &&& from % 8 == 4
        &&& bv_at(v, to) is None
        &&& bv_at(v, spec_rook_to(from, to)) is None
        &&& bv_at(v, spec_rook_from(from, to)) == Some(
            GamePiece::Rook(spec_piece_team(bv_mover(v, from))),
        )
    })
}

/// The castling rights after the move: a king move withdraws both of the
/// mover's rights, a rook leaving its corner withdraws that wing's right, and
/// capturing a rook on its corner withdraws the opponent's right there.
pub open spec fn spec_new_castling(v: BoardView, from: u64, to: u64) -> u8 {
    let mover = bv_mover(v, from);
    let t = spec_piece_team(mover);
    let c0 = v.castling;
    let c1 = if spec_piece_kind(mover) == 5 {
        c0 & !(spec_castling_bit(t, 0) | spec_castling_bit(t, 1))
    } else if spec_piece_kind(mover) == 3 {
        if from == spec_corner(t, 0) {
            c0 & !spec_castling_bit(t, 0)
        } else if from == spec_corner(t, 1) {
            c0 & !spec_castling_bit(t, 1)
        } else {
            c0
        }
    } else {
        c0
    };
    match bv_at(v, to) {
        Some(cap) => {
            let u = spec_piece_team(cap);
            if spec_piece_kind(cap) == 3 {
                if to == spec_corner(u, 0) {
                    c1 & !spec_castling_bit(u, 0)
                } else if to == spec_corner(u, 1) {
                    c1 & !spec_castling_bit(u, 1)
                } else {
                    c1
                }
            } else {
                c1
            }
        },
        None => c1,
    }
}

/// The en-passant target after the move: the skipped square of a double push,
/// nothing otherwise.
pub open spec fn spec_new_ep(v: BoardView, from: u64, to: u64) -> Option<usize> {
    if spec_is_double_push(v, from, to) {
        Some((((from + to) / 2) as usize))
    } else {
        None
    }
}

/// The view after the move (from, to) was played with state updates.
pub open spec fn bv_play(v: BoardView, from: u64, to: u64) -> BoardView {
    let mover = bv_mover(v, from);
    let t = spec_piece_team(mover);
    let v1 = if spec_is_ep_capture(v, from, to) {
        bv_clear(v, spec_ep_victim(from, to))
    } else {
        v
    };
    let v2 = if spec_is_castle(v, from, to) {
        bv_put(bv_clear(v1, spec_rook_from(from, to)), spec_rook_to(from, to), GamePiece::Rook(t))
    } else {
        v1
    };
    let v3 = bv_clear(v2, from);
    let v4 = bv_clear(v3, to);
    let v5 = bv_put(
        v4,
        to,
        if spec_is_promotion(v, from, to) {
            GamePiece::Queen(t)
        } else {
            mover
        },
    );
    BoardView {
        castling: spec_new_castling(v, from, to),
        ep: spec_new_ep(v, from, to),
        turn: spec_opposite(v.turn),
        ..v5
    }
}

/// The record that playing (from, to) produces.
pub open spec fn spec_play_record(v: BoardView, from: u64, to: u64) -> CompletedMove {
    CompletedMove {
        origin: from as u8,
        target: to as u8,
        capture: if spec_is_ep_capture(v, from, to) {
            1u8
        } else {
            match bv_at(v, to) {
                Some(cap) => (spec_piece_kind(cap) + 1) as u8,
                None => 0u8,
            }
        },
        bits: (if spec_is_promotion(v, from, to) {
            1u8
        } else {
            0u8
        }) | (if spec_is_castle(v, from, to) {
            2u8
        } else {
            0u8
        }) | (if spec_is_ep_capture(v, from, to) {
            4u8
        } else {
            0u8
        }),
        prev_castling: v.castling,
        prev_en_passant: match v.ep {
            Some(e) => Some(e as u8),
            None => None,
        },
    }
}

/// The view after a plain relocation without state updates.
pub open spec fn bv_move_piece(v: BoardView, from: u64, to: u64) -> BoardView {
    bv_put(bv_clear(bv_clear(v, from), to), to, bv_mover(v, from))
}

/// The structural conditions under which a record can be undone: the moved
/// piece stands on the target, the origin is free again, and the slots the
/// undo writes back to are free.
pub open spec fn undo_ok(v: BoardView, m: CompletedMove) -> bool {
    let from = m.origin as u64;
    let to = m.target as u64;
    &&& from < 64 && to < 64 && from != to
    &&& bv_at(v, to) is Some
    &&& bv_at(v, from) is None
    &&& m.capture <= 6
    &&& (m.bits & CompletedMove::EN_PASSANT != 0 ==> {
        &&& from % 8 != to % 8
        &&& from / 8 != to / 8
        &&& bv_at(v, spec_ep_victim(from, to)) is None
    })
    &&& (m.bits & CompletedMove::CASTLING != 0 ==> {
        &&& from % 8 == 4
        &&& (to == from + 2 || from == to + 2)
        &&& bv_at(v, spec_rook_to(from, to)) == Some(
            GamePiece::Rook(spec_piece_team(bv_at(v, to)->Some_0)),
        )
        &&& bv_at(v, spec_rook_from(from, to)) is None
    })
    &&& (m.prev_en_passant matches Some(e) ==> e < 64)
}

/// The view after the record `m` was undone.
pub open spec fn bv_undo(v: BoardView, m: CompletedMove) -> BoardView {
    let from = m.origin as u64;
    let to = m.target as u64;
    let mover = bv_at(v, to)->Some_0;
    let t = spec_piece_team(mover);
    let v1 = bv_clear(v, to);
    let v2 = bv_put(
        v1,
        from,
        if m.bits & CompletedMove::PROMOTION != 0 {
            GamePiece::Pawn(t)
        } else {
            mover
        },
    );
    let v3 = if m.bits & CompletedMove::EN_PASSANT != 0 {
        bv_put(v2, spec_ep_victim(from, to), GamePiece::Pawn(spec_opposite(t)))
    } else if m.capture != 0 {
        bv_put(v2, to, spec_game_piece((m.capture - 1) as usize, spec_opposite(t)))
    } else {
        v2
    };
    let v4 = if m.bits & CompletedMove::CASTLING != 0 {
        bv_put(bv_clear(v3, spec_rook_to(from, to)), spec_rook_from(from, to), GamePiece::Rook(t))
    } else {
        v3
    };
    BoardView {
        castling: m.prev_castling,
        ep: match m.prev_en_passant {
            Some(e) => Some(e as usize),
            None => None,
        },
        turn: spec_opposite(v.turn),
        ..v4
    }
}


/// Every occupied square.
pub open spec fn bv_occ_all(v: BoardView) -> u64 {
    bv_side(v, 0) | bv_side(v, 1)
}

/// Whether side `team` attacks square `t`: one of its pieces could capture
/// into `t` (pawns by their diagonal threats), and `t` does not hold one of
/// its own pieces.
pub open spec fn bv_attacks(v: BoardView, team: int, t: u64) -> bool {
    &&& !bit_at(bv_side(v, team), t)
    &&& {
        ||| (exists|s: u64|
            s < 64 && #[trigger] bit_at(bv_piece(v, team, 2), s) && knight_reach(s as int, t as int))
        ||| (exists|s: u64|
            s < 64 && #[trigger] bit_at(bv_piece(v, team, 1), s) && bishop_reach(
                bv_occ_all(v),
                s as int,
                t as int,
            ))
        ||| (exists|s: u64|
            s < 64 && #[trigger] bit_at(bv_piece(v, team, 3), s) && rook_reach(
                bv_occ_all(v),
                s as int,
                t as int,
            ))
        ||| (exists|s: u64|
            s < 64 && #[trigger] bit_at(bv_piece(v, team, 4), s) && queen_reach(
                bv_occ_all(v),
                s as int,
                t as int,
            ))
        ||| (exists|s: u64|
            s < 64 && #[trigger] bit_at(bv_piece(v, team, 0), s) && pawn_threat(
                team as usize,
                s as int,
                t as int,
            ))
        ||| (exists|s: u64|
            s < 64 && #[trigger] bit_at(bv_piece(v, team, 5), s) && king_reach(s as int, t as int))
    }
}

/// Whether `team`'s king stands on a square the other side attacks.
pub open spec fn bv_in_check(v: BoardView, team: int) -> bool {
    exists|t: u64| t < 64 && #[trigger] bit_at(bv_piece(v, team, 5), t) && bv_attacks(v, 1 - team, t)
}

/// The material balance of side `team`, per piece kind: how many more pieces
/// of the kind it has than the other side, weighted by the kind's value.
pub open spec fn bv_material_upto(v: BoardView, team: int, n: int) -> int
    decreases n,
{
    if n <= 0 {
        0
    } else {
        bv_material_upto(v, team, n - 1) + (count_bits(bv_piece(v, team, n - 1)) - count_bits(
            bv_piece(v, 1 - team, n - 1),
        )) * spec_piece_value((n - 1) as usize)
    }
}

/// The material balance of side `team`.
pub open spec fn bv_material(v: BoardView, team: int) -> int {
    bv_material_upto(v, team, 6)
}


/// The castle-block mask of `team`'s king wing.
pub open spec fn spec_ks_blocks(team: usize) -> u64 {
    if team == 0 {
        WHITE_KINGSIDE_CASTLE_BLOCKS
    } else {
        BLACK_KINGSIDE_CASTLE_BLOCKS
    }
}

/// The castle-block mask of `team`'s queen wing.
pub open spec fn spec_qs_blocks(team: usize) -> u64 {
    if team == 0 {
        WHITE_QUEENSIDE_CASTLE_BLOCKS
    } else {
        BLACK_QUEENSIDE_CASTLE_BLOCKS
    }
}

/// The home square of `team`'s king.
pub open spec fn spec_king_home(team: usize) -> u64 {
    if team == 0 {
        4u64
    } else {
        60u64
    }
}

/// A castling move of `team` from `from` to `to` that the position allows:
/// the king on its home square, the wing's right kept, the path clear, and
/// neither the king's square nor the square it passes over attacked.
pub open spec fn bv_castle_shape(v: BoardView, team: usize, from: u64, to: u64) -> bool {
    &&& from == spec_king_home(team)
    &&& {
        ||| (to == from + 2 && v.castling & spec_castling_bit(team, 0) != 0 && bv_occ_all(v)
            & spec_ks_blocks(team) == 0)
        ||| (from == to + 2 && v.castling & spec_castling_bit(team, 1) != 0 && bv_occ_all(v)
            & spec_qs_blocks(team) == 0)
    }
    &&& !bv_attacks(v, 1 - team as int, from)
    &&& !bv_attacks(v, 1 - team as int, ((from + to) / 2) as u64)
}

/// A legal move of `team`: one of its pieces moves as its kind allows (or
/// castles), onto no square of its own, the position accepts the move, and
/// afterwards `team`'s king is not attacked.
pub open spec fn bv_legal_move(v: BoardView, team: usize, from: u64, to: u64) -> bool {
    &&& from < 64 && to < 64
    &&& bv_at(v, from) is Some
    &&& spec_piece_team(bv_mover(v, from)) == team
    &&& !bit_at(bv_side(v, team as int), to)
    &&& {
        let kind = spec_piece_kind(bv_mover(v, from));
        ||| piece_dests(
            kind,
            team,
            bv_occ_all(v),
            !bv_occ_all(v),
            bv_side(v, 1 - team as int),
            v.ep,
            from as int,
            to as int,
        )
        ||| (kind == 5 && bv_castle_shape(v, team, from, to))
    }
    &&& play_ok(v, from, to)
    &&& !bv_in_check(bv_play(v, from, to), team as int)
}

/// A complete game position.
#[derive(Debug, Clone, PartialEq, Eq, Copy)]
pub struct ChessBoard {
    pub bits: BitPosition,
    pub mailbox: MailBox,
    pub state: ChessState,
    pub experimental: ExperimentalData,
}

#[derive(Debug, Clone, PartialEq, Eq, Copy)]
pub struct ExperimentalData {
    pub last_move: Option<CompletedMove>,
}

impl View for ChessBoard {
    type V = BoardView;

    open spec fn view(&self) -> BoardView {
        BoardView {
            pieces: Seq::new(2, |s: int| Seq::new(6, |k: int| self.bits.spec_pieces(s, k))),
            sides: Seq::new(2, |s: int| self.bits.spec_side(s)),
            mailbox: Seq::new(128, |i: int| self.mailbox.spec_at(i)),
            castling: self.state.castling_rights.spec_bits(),
            ep: self.state.en_passant_square,
            turn: self.state.team_to_play,
        }
    }
}

impl ChessBoard {
    /// The board invariant.
    pub open spec fn wf(self) -> bool {
        bv_wf(self@)
    }

    pub fn new(bits: BitPosition, mailbox: MailBox, state: ChessState) -> (r: ChessBoard)
        requires
            bv_wf(
                BoardView {
                    pieces: Seq::new(2, |s: int| Seq::new(6, |k: int| bits.spec_pieces(s, k))),
                    sides: Seq::new(2, |s: int| bits.spec_side(s)),
                    mailbox: Seq::new(128, |i: int| mailbox.spec_at(i)),
                    castling: state.castling_rights.spec_bits(),
                    ep: state.en_passant_square,
                    turn: state.team_to_play,
                },
            ),
        ensures
            r.wf(),
            r.bits == bits,
            r.mailbox == mailbox,
            r.state == state,
    {
        ChessBoard { bits, mailbox, state, experimental: ExperimentalData::new() }
    }

    /// Empties square `sq`, keeping bitboards and mailbox in step.
    pub fn clear_square(&mut self, sq: u8)
        requires
            old(self).wf(),
            sq < 64,
        ensures
            final(self).wf(),
            final(self)@ == bv_clear(old(self)@, sq as u64),
            final(self).state == old(self).state,
            final(self).experimental == old(self).experimental,
    {
        proof {
            lemma_bit_clear();
            lemma_bit_set();
            lemma_bit_single();
        }
        let ghost v0 = self@;
        let mbi = (sq as usize / 8) * 16 + (sq as usize % 8);
        let piece = *self.mailbox.get_piece_at(mbi);
        if let Some(p) = piece {
            let team = p.get_team();
            let kind = p.get_piece();
            proof {
                // The occupied square has the piece's bit set, so the
                // consistency clause of the invariant applies to it.
                lemma_mb_index_injective();
                assert(mbi as int == spec_mb_index(sq as int));
                assert(bv_slot(v0, spec_mb_index(sq as int)) == Some(p));
                assert(spec_piece_team(p) < 2);
                assert(bv_at(v0, sq as u64) == Some(p));
                assert(spec_game_piece(spec_piece_kind(p), spec_piece_team(p)) == p);
                assert(bit_at(bv_piece(v0, team as int, kind as int), sq as u64));
            }
            let mask = BitBoard(!(1u64 << (sq as u64)));
            self.bits.move_and(team, kind, mask);
            self.mailbox.set_piece_at(mbi, None);
            proof {
                let v1 = bv_clear(v0, sq as u64);
                assert(self@.pieces =~~= v1.pieces);
                assert(self@.sides =~~= v1.sides);
                assert(self@.mailbox =~~= v1.mailbox);
                assert(self@ =~~= v1);
                lemma_bv_clear_wf(v0, sq as u64);
            }
        } else {
            proof {
                assert(self@ =~~= bv_clear(v0, sq as u64));
            }
        }
    }

    /// Places `gp` on the empty square `sq`, keeping bitboards and mailbox in step.
    pub fn put_square(&mut self, sq: u8, gp: GamePiece)
        requires
            old(self).wf(),
            sq < 64,
            bv_at(old(self)@, sq as u64) is None,
            spec_piece_team(gp) < 2,
        ensures
            final(self).wf(),
            final(self)@ == bv_put(old(self)@, sq as u64, gp),
            final(self).state == old(self).state,
            final(self).experimental == old(self).experimental,
    {
        proof {
            lemma_bit_clear();
            lemma_bit_set();
            lemma_bit_single();
        }
        let ghost v0 = self@;
        let mbi = (sq as usize / 8) * 16 + (sq as usize % 8);
        let team = gp.get_team();
        let kind = gp.get_piece();
        proof {
            lemma_mb_index_injective();
            assert(mbi as int == spec_mb_index(sq as int));
        }
        let mask = BitBoard(1u64 << (sq as u64));
        self.bits.move_or(team, kind, mask);
        self.mailbox.set_piece_at(mbi, Some(gp));
        proof {
            let v1 = bv_put(v0, sq as u64, gp);
            assert(spec_game_piece(spec_piece_kind(gp), spec_piece_team(gp)) == gp);
            assert(self@.pieces =~~= v1.pieces);
            assert(self@.sides =~~= v1.sides);
            assert(self@.mailbox =~~= v1.mailbox);
            assert(self@ =~~= v1);
            lemma_bv_put_wf(v0, sq as u64, gp);
        }
    }

    /// The set of squares `team` attacks.
    pub fn attacks(&self, team: Team) -> (res: BitBoard)
        requires
            self.wf(),
            team < 2,
        ensures
            forall|t: u64|
                t < 64 ==> (#[trigger] bit_at(res.0, t) <==> bv_attacks(self@, team as int, t)),
    {
        proof {
            lemma_bit_or();
            lemma_bit_and();
            lemma_bit_not();
        }
        let opponent_pieces = self.bits.get_team_pieces(get_opposite_team(team));
        let team_pieces = self.bits.get_team_pieces(team);
        let occupied = BitBoard(team_pieces.0 | opponent_pieces.0);
        let ghost v = self@;
        proof {
            assert forall|i: u64| i < 64 implies (#[trigger] bit_at(occupied.0, i) <==> bit_at(
                bv_occ_all(v),
                i,
            )) by {}
            lemma_bit_ext(occupied.0, bv_occ_all(v));
            assert(spec_opposite(team) as int == 1 - team as int);
        }
        let knight_moves = crate::math::knights::mask_all_knight_moves(
            &self.bits.get_pieces(team, Pieces::KNIGHT),
        );
        let bishop_moves = crate::math::sliding::properly_mask_all_bishop_moves(
            &self.bits.get_pieces(team, Pieces::BISHOP),
            &occupied,
        );
        let rook_moves = crate::math::sliding::properly_mask_all_rook_moves(
            &self.bits.get_pieces(team, Pieces::ROOK),
            &occupied,
        );
        let queen_moves = crate::math::sliding::properly_mask_all_queen_moves(
            &self.bits.get_pieces(team, Pieces::QUEEN),
            &occupied,
        );
        let pawn_moves = crate::math::pawns::mask_all_pawn_threats(
            &self.bits.get_pieces(team, Pieces::PAWN),
            team,
        );
        let king_moves = crate::math::kings::king_steps_of_all(
            &self.bits.get_pieces(team, Pieces::KING),
        );
        let all = ((((knight_moves.0 | bishop_moves.0) | rook_moves.0) | queen_moves.0)
            | pawn_moves.0) | king_moves.0;
        let res = BitBoard(all & !team_pieces.0);
        proof {
            assert(bv_piece(v, team as int, 0) == self.bits.spec_pieces(team as int, 0));
            assert(bv_piece(v, team as int, 1) == self.bits.spec_pieces(team as int, 1));
            assert(bv_piece(v, team as int, 2) == self.bits.spec_pieces(team as int, 2));
            assert(bv_piece(v, team as int, 3) == self.bits.spec_pieces(team as int, 3));
            assert(bv_piece(v, team as int, 4) == self.bits.spec_pieces(team as int, 4));
            assert(bv_piece(v, team as int, 5) == self.bits.spec_pieces(team as int, 5));
            assert(bv_side(v, team as int) == self.bits.spec_side(team as int));
        }
        res
    }

    /// Whether `team`'s king is attacked by the other side.
    #[verifier::rlimit(60)]
    pub fn is_in_check(&self, team: Team) -> (r: bool)
        requires
            self.wf(),
            team < 2,
        ensures
            r == bv_in_check(self@, team as int),
    {
        proof {
            lemma_bit_and();
        }
        let king = self.bits.get_pieces(team, Pieces::KING);
        let opponent_threats = self.attacks(get_opposite_team(team));
        let meet = opponent_threats.0 & king.0;
        proof {
            lemma_nonzero_bit(meet);
            assert(1 - team as int == spec_opposite(team) as int);
            assert(king.0 == bv_piece(self@, team as int, 5));
            if meet != 0 {
                let i = choose|i: u64| i < 64 && #[trigger] bit_at(meet, i);
                assert(bit_at(king.0, i) && bit_at(opponent_threats.0, i));
                assert(bv_in_check(self@, team as int));
            }
            if bv_in_check(self@, team as int) {
                let t = choose|t: u64|
                    t < 64 && #[trigger] bit_at(bv_piece(self@, team as int, 5), t) && bv_attacks(
                        self@,
                        1 - team as int,
                        t,
                    );
                assert(bit_at(meet, t));
                assert(meet != 0);
            }
        }
        meet != 0
    }

    /// The material balance for `reference`: positive when it has more
    /// valuable pieces on the board than its opponent.
    pub fn evaluate(&self, reference: Team) -> (score: i32)
        requires
            self.wf(),
            reference < 2,
        ensures
            score == bv_material(self@, reference as int),
    {
        let mut score: i32 = 0;
        let mut piece: usize = 0;
        let ghost v = self@;
        while piece < 6
            invariant
                piece <= 6,
                reference < 2,
                self.wf(),
                v == self@,
                score == bv_material_upto(v, reference as int, piece as int),
                -640000 * piece <= score <= 640000 * piece,
            decreases 6 - piece,
        {
            let team_pieces = self.bits.get_pieces(reference, piece);
            let opponent_pieces = self.bits.get_pieces(get_opposite_team(reference), piece);
            proof {
                crate::bits::lemma_count_bits_bound(team_pieces.0);
                crate::bits::lemma_count_bits_bound(opponent_pieces.0);
                assert(spec_opposite(reference) as int == 1 - reference as int);
            }
            let diff = team_pieces.count_ones() as i32 - opponent_pieces.count_ones() as i32;
            let value = get_piece_value(piece);
            proof {
                assert(-640000 <= diff * value <= 640000) by (nonlinear_arith)
                    requires
                        -64 <= diff <= 64 && 100 <= value <= 10000,
                ;
                assert(bv_piece(v, reference as int, piece as int) == team_pieces.0);
                assert(bv_piece(v, 1 - reference as int, piece as int) == opponent_pieces.0);
            }
            score = score + diff * value;
            piece = piece + 1;
        }
        score
    }

    /// All legal moves of `team`, each as the record that playing it on this
    /// position produces: the list holds exactly the legal moves. A promoting
    /// pawn move is generated once and always promotes to a queen; the
    /// compact record carries no field for another choice, a documented
    /// simplification of full promotion.
    #[verifier::rlimit(100)]
    pub fn generate_moves(&self, team: Team) -> (moves: Vec<CompletedMove>)
        requires
            self.wf(),
            team < 2,
        ensures
            forall|i: int|
                0 <= i < moves.len() ==> {
                    let m = #[trigger] moves[i];
                    &&& bv_legal_move(self@, team, m.origin as u64, m.target as u64)
                    &&& m == spec_play_record(self@, m.origin as u64, m.target as u64)
                },
            forall|f: u64, t: u64|
                #[trigger] bv_legal_move(self@, team, f, t) ==> exists|i: int|
                    0 <= i < moves.len() && (#[trigger] moves[i]).origin == f && moves[i].target
                        == t,
    {
        proof {
            lemma_bit_or();
            lemma_bit_and();
            lemma_bit_not();
            lemma_bit_single();
            lemma_sq_mask_inj();
        }
        let ghost v = self@;
        let mut moves: Vec<CompletedMove> = Vec::new();
        let mut hyp = *self;
        let opp = get_opposite_team(team);
        let opponent_pieces = self.bits.get_team_pieces(opp);
        let team_pieces = self.bits.get_team_pieces(team);
        let occupied = BitBoard(team_pieces.0 | opponent_pieces.0);
        proof {
            assert forall|i: u64| i < 64 implies (#[trigger] bit_at(occupied.0, i) <==> bit_at(
                bv_occ_all(v),
                i,
            )) by {}
            lemma_bit_ext(occupied.0, bv_occ_all(v));
        }
        let empty = BitBoard(!occupied.0);
        let att = self.attacks(opp);
        let castle_dests = calculate_king_castling_moves(
            &self.state.castling_rights,
            team,
            &occupied,
        );
        let home: u64 = if team == Teams::WHITE { 4 } else { 60 };
        proof {
            assert(WHITE_KINGSIDE_KING_CASTLE == sq_mask(6)) by (bit_vector);
            assert(WHITE_QUEENSIDE_KING_CASTLE == sq_mask(2)) by (bit_vector);
            assert(BLACK_KINGSIDE_KING_CASTLE == sq_mask(62)) by (bit_vector);
            assert(BLACK_QUEENSIDE_KING_CASTLE == sq_mask(58)) by (bit_vector);
            assert(spec_opposite(team) as int == 1 - team as int);
            assert(opponent_pieces.0 == bv_side(v, 1 - team as int));
            assert(team_pieces.0 == bv_side(v, team as int));
        }
        let mut kind: usize = 0;
        while kind < 6
            invariant
                kind <= 6,
                team < 2,
                self.wf(),
                v == self@,
                hyp@ == v,
                hyp.wf(),
                opp == spec_opposite(team),
                occupied.0 == bv_occ_all(v),
                empty.0 == !bv_occ_all(v),
                opponent_pieces.0 == bv_side(v, 1 - team as int),
                team_pieces.0 == bv_side(v, team as int),
                home == spec_king_home(team),
                forall|t2: u64| t2 < 64 ==> (#[trigger] bit_at(att.0, t2) <==> bv_attacks(v, 1 - team as int, t2)),
                castle_dests.0 == (if team == 0 {
                    (if v.castling & spec_castling_bit(0, 0) != 0 && bv_occ_all(v) & WHITE_KINGSIDE_CASTLE_BLOCKS == 0 { WHITE_KINGSIDE_KING_CASTLE } else { 0u64 })
                    | (if v.castling & spec_castling_bit(0, 1) != 0 && bv_occ_all(v) & WHITE_QUEENSIDE_CASTLE_BLOCKS == 0 { WHITE_QUEENSIDE_KING_CASTLE } else { 0u64 })
                } else {
                    (if v.castling & spec_castling_bit(1, 0) != 0 && bv_occ_all(v) & BLACK_KINGSIDE_CASTLE_BLOCKS == 0 { BLACK_KINGSIDE_KING_CASTLE } else { 0u64 })
                    | (if v.castling & spec_castling_bit(1, 1) != 0 && bv_occ_all(v) & BLACK_QUEENSIDE_CASTLE_BLOCKS == 0 { BLACK_QUEENSIDE_KING_CASTLE } else { 0u64 })
                }),
                forall|i: int|
                    0 <= i < moves.len() ==> {
                        let m = #[trigger] moves[i];
                        &&& bv_legal_move(v, team, m.origin as u64, m.target as u64)
                        &&& m == spec_play_record(v, m.origin as u64, m.target as u64)
                    },
                forall|f: u64, t: u64|
                    #[trigger] bv_legal_move(v, team, f, t) && spec_piece_kind(bv_mover(v, f)) < kind
                        ==> exists|i: int|
                        0 <= i < moves.len() && (#[trigger] moves[i]).origin == f
                            && moves[i].target == t,
            decreases 6 - kind,
        {
            let pieces_bb = self.bits.get_pieces(team, kind);
            proof {
                assert(pieces_bb.0 == bv_piece(v, team as int, kind as int));
            }
            let mut from: u64 = 0;
            while from < 64
                invariant
                    from <= 64,
                    kind < 6,
                    team < 2,
                    self.wf(),
                    v == self@,
                    hyp@ == v,
                    hyp.wf(),
                    opp == spec_opposite(team),
                    occupied.0 == bv_occ_all(v),
                    empty.0 == !bv_occ_all(v),
                    opponent_pieces.0 == bv_side(v, 1 - team as int),
                    team_pieces.0 == bv_side(v, team as int),
                    home == spec_king_home(team),
                    pieces_bb.0 == bv_piece(v, team as int, kind as int),
                    forall|t2: u64| t2 < 64 ==> (#[trigger] bit_at(att.0, t2) <==> bv_attacks(v, 1 - team as int, t2)),
                    castle_dests.0 == (if team == 0 {
                        (if v.castling & spec_castling_bit(0, 0) != 0 && bv_occ_all(v) & WHITE_KINGSIDE_CASTLE_BLOCKS == 0 { WHITE_KINGSIDE_KING_CASTLE } else { 0u64 })
                        | (if v.castling & spec_castling_bit(0, 1) != 0 && bv_occ_all(v) & WHITE_QUEENSIDE_CASTLE_BLOCKS == 0 { WHITE_QUEENSIDE_KING_CASTLE } else { 0u64 })
                    } else {
                        (if v.castling & spec_castling_bit(1, 0) != 0 && bv_occ_all(v) & BLACK_KINGSIDE_CASTLE_BLOCKS == 0 { BLACK_KINGSIDE_KING_CASTLE } else { 0u64 })
                        | (if v.castling & spec_castling_bit(1, 1) != 0 && bv_occ_all(v) & BLACK_QUEENSIDE_CASTLE_BLOCKS == 0 { BLACK_QUEENSIDE_KING_CASTLE } else { 0u64 })
                    }),
                    forall|i: int|
                        0 <= i < moves.len() ==> {
                            let m = #[trigger] moves[i];
                            &&& bv_legal_move(v, team, m.origin as u64, m.target as u64)
                            &&& m == spec_play_record(v, m.origin as u64, m.target as u64)
                        },
                    forall|f: u64, t: u64|
                        #[trigger] bv_legal_move(v, team, f, t) && (spec_piece_kind(bv_mover(v, f))
                            < kind || (spec_piece_kind(bv_mover(v, f)) == kind && f < from)) ==> exists|i: int|
                            0 <= i < moves.len() && (#[trigger] moves[i]).origin == f
                                && moves[i].target == t,
                decreases 64 - from,
            {
                if (pieces_bb.0 >> from) & 1 == 1 {
                    proof {
                        lemma_bit_or();
                        lemma_bit_and();
                        lemma_bit_not();
                        lemma_bit_single();
                        lemma_sq_mask_inj();
                        lemma_castle_dest_squares();
                        assert(bit_at(pieces_bb.0, from));
                        assert(bv_at(v, from) == Some(spec_game_piece(kind, team)));
                    }
                    let single = 1u64 << from;
                    proof {
                        assert(single == sq_mask(from));
                        assert(is_single_bit(single));
                        lemma_single_bit_tz(single);
                        assert(vstd::std_specs::bits::u64_trailing_zeros(single) == from);
                    }
                    let mask = individually_mask_piece_moves(
                        single,
                        kind,
                        team,
                        &empty,
                        &occupied,
                        &opponent_pieces,
                        &self.state.en_passant_square,
                        None,
                    );
                    let mut targets = mask.0 & !team_pieces.0;
                    if kind == Pieces::KING && from == home {
                        targets = targets | (castle_dests.0 & !team_pieces.0);
                    }
                    let ghost targets_final = targets;
                    let mut to: u64 = 0;
                    while to < 64
                        invariant
                            to <= 64,
                            from < 64,
                            kind < 6,
                            team < 2,
                            self.wf(),
                            v == self@,
                            hyp@ == v,
                            hyp.wf(),
                            opp == spec_opposite(team),
                            occupied.0 == bv_occ_all(v),
                            empty.0 == !bv_occ_all(v),
                            opponent_pieces.0 == bv_side(v, 1 - team as int),
                            team_pieces.0 == bv_side(v, team as int),
                            home == spec_king_home(team),
                            targets == targets_final,
                            bv_at(v, from) == Some(spec_game_piece(kind, team)),
                            forall|t2: u64| t2 < 64 ==> (#[trigger] bit_at(att.0, t2) <==> bv_attacks(v, 1 - team as int, t2)),
                            forall|t2: u64|
                                t2 < 64 ==> (#[trigger] bit_at(targets_final, t2) <==> (
                                    (piece_dests(kind, team, bv_occ_all(v), !bv_occ_all(v), bv_side(v, 1 - team as int), v.ep, from as int, t2 as int)
                                     && !bit_at(bv_side(v, team as int), t2))
                                    || (kind == 5 && from == spec_king_home(team)
                                        && bit_at(if team == 0 {
                                            (if v.castling & spec_castling_bit(0, 0) != 0 && bv_occ_all(v) & WHITE_KINGSIDE_CASTLE_BLOCKS == 0 { WHITE_KINGSIDE_KING_CASTLE } else { 0u64 })
                                            | (if v.castling & spec_castling_bit(0, 1) != 0 && bv_occ_all(v) & WHITE_QUEENSIDE_CASTLE_BLOCKS == 0 { WHITE_QUEENSIDE_KING_CASTLE } else { 0u64 })
                                        } else {
                                            (if v.castling & spec_castling_bit(1, 0) != 0 && bv_occ_all(v) & BLACK_KINGSIDE_CASTLE_BLOCKS == 0 { BLACK_KINGSIDE_KING_CASTLE } else { 0u64 })
                                            | (if v.castling & spec_castling_bit(1, 1) != 0 && bv_occ_all(v) & BLACK_QUEENSIDE_CASTLE_BLOCKS == 0 { BLACK_QUEENSIDE_KING_CASTLE } else { 0u64 })
                                        }, t2)
                                        && !bit_at(bv_side(v, team as int), t2)))),
                            forall|i: int|
                                0 <= i < moves.len() ==> {
                                    let m = #[trigger] moves[i];
                                    &&& bv_legal_move(v, team, m.origin as u64, m.target as u64)
                                    &&& m == spec_play_record(v, m.origin as u64, m.target as u64)
                                },
                            forall|f: u64, t: u64|
                                #[trigger] bv_legal_move(v, team, f, t) && (spec_piece_kind(bv_mover(v, f))
                                    < kind || (spec_piece_kind(bv_mover(v, f)) == kind && f < from)
                                    || (spec_piece_kind(bv_mover(v, f)) == kind && f == from && t < to)) ==> exists|i: int|
                                    0 <= i < moves.len() && (#[trigger] moves[i]).origin == f
                                        && moves[i].target == t,
                        decreases 64 - to,
                    {
                        let ghost moves0 = moves@;
                        proof {
                            lemma_bit_or();
                            lemma_bit_and();
                            lemma_bit_not();
                            lemma_bit_single();
                            lemma_castle_dest_squares();
                        }
                        if (targets >> to) & 1 == 1 {
                            proof {
                                assert(bit_at(targets_final, to));
                            }
                            let mut skip = false;
                            if kind == Pieces::KING && (to == from + 2 || to + 2 == from) {
                                proof {
                                    // A two-file king move is never a king step.
                                    assert(!crate::math::king_reach(from as int, to as int)) by {
                                        let fi = from as int;
                                        let ti = to as int;
                                        if ti == fi + 2 {
                                            if fi % 8 <= 5 {
                                                assert(ti % 8 == fi % 8 + 2 && ti / 8 == fi / 8);
                                            } else {
                                                assert(ti % 8 == fi % 8 - 6 && ti / 8 == fi / 8 + 1);
                                            }
                                        } else {
                                            if fi % 8 >= 2 {
                                                assert(ti % 8 == fi % 8 - 2 && ti / 8 == fi / 8);
                                            } else {
                                                assert(ti % 8 == fi % 8 + 6 && ti / 8 == fi / 8 - 1);
                                            }
                                        }
                                    }
                                }
                                let mid = (from + to) / 2;
                                if (att.0 >> from) & 1 == 1 || (att.0 >> mid) & 1 == 1 {
                                    skip = true;
                                    proof {
                                        assert(bit_at(att.0, from) || bit_at(att.0, mid));
                                        assert(!bv_castle_shape(v, team, from, to));
                                        assert(!bv_legal_move(v, team, from, to));
                                    }
                                }
                            }
                            if !skip {
                                let rec_opt = hyp.play_move(from as u8, to as u8, true);
                                if let Some(rec) = rec_opt {
                                    let in_check = hyp.is_in_check(team);
                                    if !in_check {
                                        proof {
                                            lemma_bit_none();
                                            assert(spec_piece_team(bv_mover(v, from)) == team);
                                            if !(piece_dests(
                                                kind,
                                                team,
                                                bv_occ_all(v),
                                                !bv_occ_all(v),
                                                bv_side(v, 1 - team as int),
                                                v.ep,
                                                from as int,
                                                to as int,
                                            ) && !bit_at(bv_side(v, team as int), to)) {
                                                assert(kind == 5 && from == spec_king_home(team));
                                                if team == 0 {
                                                    assert((v.castling & spec_castling_bit(0, 0) != 0
                                                        && bv_occ_all(v) & WHITE_KINGSIDE_CASTLE_BLOCKS == 0
                                                        && to == 6) || (v.castling & spec_castling_bit(0, 1) != 0
                                                        && bv_occ_all(v) & WHITE_QUEENSIDE_CASTLE_BLOCKS == 0
                                                        && to == 2));
                                                } else {
                                                    assert((v.castling & spec_castling_bit(1, 0) != 0
                                                        && bv_occ_all(v) & BLACK_KINGSIDE_CASTLE_BLOCKS == 0
                                                        && to == 62) || (v.castling & spec_castling_bit(1, 1) != 0
                                                        && bv_occ_all(v) & BLACK_QUEENSIDE_CASTLE_BLOCKS == 0
                                                        && to == 58));
                                                }
                                                assert(to == from + 2 || from == to + 2);
                                                let midsq = (((from + to) / 2) as u64);
                                                assert(!(bit_at(att.0, from) || bit_at(att.0, midsq)));
                                                assert(!bv_attacks(v, 1 - team as int, from));
                                                assert(!bv_attacks(v, 1 - team as int, midsq));
                                                assert(bv_castle_shape(v, team, from, to));
                                            }
                                            assert(bv_legal_move(v, team, from, to));
                                            assert(rec == spec_play_record(v, from, to));
                                        }
                                        moves.push(rec);
                                    } else {
                                        proof {
                                            assert(!bv_legal_move(v, team, from, to));
                                        }
                                    }
                                    proof {
                                        lemma_play_undo_roundtrip(v, from, to);
                                    }
                                    hyp.undo_move(rec);
                                } else {
                                    proof {
                                        assert(!play_ok(v, from, to));
                                        assert(!bv_legal_move(v, team, from, to));
                                    }
                                }
                            }
                        } else {
                            proof {
                                assert(!bit_at(targets_final, to));
                                assert(!bv_legal_move(v, team, from, to));
                            }
                        }
                        proof {
                            assert forall|f: u64, t: u64|
                                #[trigger] bv_legal_move(v, team, f, t) && (spec_piece_kind(bv_mover(v, f))
                                    < kind || (spec_piece_kind(bv_mover(v, f)) == kind && f < from)
                                    || (spec_piece_kind(bv_mover(v, f)) == kind && f == from && t < to + 1)) implies exists|i: int|
                                    0 <= i < moves.len() && (#[trigger] moves[i]).origin == f
                                        && moves[i].target == t by {
                                if spec_piece_kind(bv_mover(v, f)) == kind && f == from && t == to {
                                    assert(bv_legal_move(v, team, from, to));
                                    assert(moves[moves.len() - 1].origin == f && moves[moves.len() - 1].target == t);
                                } else {
                                    assert(exists|i: int|
                                        0 <= i < moves0.len() && (#[trigger] moves0[i]).origin == f
                                            && moves0[i].target == t);
                                    let i = choose|i: int|
                                        0 <= i < moves0.len() && (#[trigger] moves0[i]).origin == f
                                            && moves0[i].target == t;
                                    assert(moves[i].origin == f && moves[i].target == t);
                                }
                            }
                        }
                        to = to + 1;
                    }
                } else {
                    proof {
                        assert(!bit_at(pieces_bb.0, from));
                        assert forall|t: u64|
                            bv_legal_move(v, team, from, t) implies spec_piece_kind(
                            bv_mover(v, from),
                        ) != kind by {
                            if spec_piece_kind(bv_mover(v, from)) == kind {
                                assert(bv_at(v, from) == Some(spec_game_piece(kind, team)));
                                assert(bit_at(bv_piece(v, team as int, kind as int), from));
                            }
                        }
                    }
                }
                from = from + 1;
            }
            kind = kind + 1;
        }
        moves
    }

    /// The legal destinations of the piece standing on `location`: exactly
    /// the coordinates its side can legally move it to.
    pub fn calculate_move_for_piece(&self, location: Vector) -> (r: Vec<Vector>)
        requires
            self.wf(),
            location.x < 8,
            location.y < 8,
        ensures
            bv_at(self@, (location.y * 8 + location.x) as u64) is None ==> r.len() == 0,
            forall|i: int|
                0 <= i < r.len() ==> {
                    let t = #[trigger] r[i];
                    &&& t.x < 8 && t.y < 8
                    &&& bv_legal_move(
                        self@,
                        spec_piece_team(bv_mover(self@, (location.y * 8 + location.x) as u64)),
                        (location.y * 8 + location.x) as u64,
                        (t.y * 8 + t.x) as u64,
                    )
                },
            forall|t: u64|
                t < 64 && bv_at(self@, (location.y * 8 + location.x) as u64) is Some
                    && #[trigger] bv_legal_move(
                    self@,
                    spec_piece_team(bv_mover(self@, (location.y * 8 + location.x) as u64)),
                    (location.y * 8 + location.x) as u64,
                    t,
                ) ==> exists|i: int|
                    0 <= i < r.len() && (#[trigger] r[i]).x == t % 8 && r[i].y == t / 8,
    {
        let ghost v = self@;
        let sq = location.y * 8 + location.x;
        let mbi = (location.y as usize) * 16 + (location.x as usize);
        proof {
            assert(mbi as int == spec_mb_index(sq as int));
        }
        let piece = *self.mailbox.get_piece_at(mbi);
        if piece.is_none() {
            return Vec::new();
        }
        let team = piece.unwrap().get_team();
        proof {
            assert(bv_slot(v, spec_mb_index(sq as int)) == bv_at(v, sq as u64));
            assert(team == spec_piece_team(bv_mover(v, sq as u64)));
            assert(team < 2);
        }
        let moves = self.generate_moves(team);
        let mut r: Vec<Vector> = Vec::new();
        let mut i: usize = 0;
        while i < moves.len()
            invariant
                i <= moves.len(),
                self.wf(),
                v == self@,
                team < 2,
                sq == location.y * 8 + location.x,
                sq < 64,
                team == spec_piece_team(bv_mover(v, sq as u64)),
                forall|j: int|
                    0 <= j < moves.len() ==> {
                        let m = #[trigger] moves[j];
                        &&& bv_legal_move(v, team, m.origin as u64, m.target as u64)
                        &&& m == spec_play_record(v, m.origin as u64, m.target as u64)
                    },
                forall|f: u64, t: u64|
                    #[trigger] bv_legal_move(v, team, f, t) ==> exists|j: int|
                        0 <= j < moves.len() && (#[trigger] moves[j]).origin == f
                            && moves[j].target == t,
                forall|k: int|
                    0 <= k < r.len() ==> {
                        let t = #[trigger] r[k];
                        &&& t.x < 8 && t.y < 8
                        &&& bv_legal_move(v, team, sq as u64, (t.y * 8 + t.x) as u64)
                    },
                forall|j: int|
                    0 <= j < i && (#[trigger] moves[j]).origin == sq ==> exists|k: int|
                        0 <= k < r.len() && (#[trigger] r[k]).x == moves[j].target as u64 % 8
                            && r[k].y == moves[j].target as u64 / 8,
            decreases moves.len() - i,
        {
            let ghost r0 = r@;
            let m = moves[i];
            if m.origin == sq {
                proof {
                    assert(m.target < 64);
                }
                let tv = Vector { x: m.target % 8, y: m.target / 8 };
                proof {
                    assert((tv.y * 8 + tv.x) as u64 == m.target as u64);
                }
                r.push(tv);
            }
            proof {
                assert forall|j: int|
                    0 <= j < i + 1 && (#[trigger] moves[j]).origin == sq implies exists|k: int|
                        0 <= k < r.len() && (#[trigger] r[k]).x == moves[j].target as u64 % 8
                            && r[k].y == moves[j].target as u64 / 8 by {
                    if j == i {
                        assert(moves[j].origin == sq ==> (r[r.len() - 1].x == moves[j].target as u64
                            % 8 && r[r.len() - 1].y == moves[j].target as u64 / 8));
                    } else {
                        if moves[j].origin == sq {
                            let k = choose|k: int|
                                0 <= k < r0.len() && (#[trigger] r0[k]).x == moves[j].target as u64
                                    % 8 && r0[k].y == moves[j].target as u64 / 8;
                            assert(r[k].x == moves[j].target as u64 % 8 && r[k].y
                                == moves[j].target as u64 / 8);
                        }
                    }
                }
            }
            i = i + 1;
        }
        proof {
            assert forall|t: u64|
                t < 64 && bv_at(v, sq as u64) is Some && #[trigger] bv_legal_move(
                v,
                team,
                sq as u64,
                t,
            ) implies exists|k: int|
                0 <= k < r.len() && (#[trigger] r[k]).x == t % 8 && r[k].y == t / 8 by {
                let j = choose|j: int|
                    0 <= j < moves.len() && (#[trigger] moves[j]).origin == sq as u64
                        && moves[j].target == t;
                assert(moves[j].origin == sq);
            }
        }
        r
    }

    /// Relocates the piece on `from` to `to` without touching the scalar
    /// state; whatever stood on `to` disappears.
    pub fn move_piece(&mut self, from: u8, to: u8)
        requires
            old(self).wf(),
        ensures
            final(self).wf(),
            final(self)@ == if from < 64 && to < 64 && from != to && bv_at(old(self)@, from as u64) is Some {
                bv_move_piece(old(self)@, from as u64, to as u64)
            } else {
                old(self)@
            },
            final(self).state == old(self).state,
            final(self).experimental == old(self).experimental,
    {
        if from >= 64 || to >= 64 || from == to {
            return ;
        }
        let ghost v0 = self@;
        let mbi_from = (from as usize / 8) * 16 + (from as usize % 8);
        let piece = *self.mailbox.get_piece_at(mbi_from);
        proof {
            assert(mbi_from as int == spec_mb_index(from as int));
        }
        if let Some(p) = piece {
            proof {
                assert(bv_slot(v0, spec_mb_index(from as int)) == Some(p));
            }
            self.clear_square(from);
            self.clear_square(to);
            self.put_square(to, p);
            proof {
                assert(self@ =~~= bv_move_piece(v0, from as u64, to as u64));
            }
        }
    }

    /// Empties the square at `location`.
    pub fn remove_piece(&mut self, location: Vector)
        requires
            old(self).wf(),
            location.x < 8,
            location.y < 8,
        ensures
            final(self).wf(),
            final(self)@ == bv_clear(old(self)@, (location.y * 8 + location.x) as u64),
            final(self).state == old(self).state,
    {
        let sq = location.y * 8 + location.x;
        self.clear_square(sq);
    }

    /// Plays the move (from, to). With `update_state` the full move semantics
    /// apply: capture, en passant, castling, promotion, castling-rights and
    /// en-passant bookkeeping, and the turn flips; the returned record can
    /// undo all of it. Without `update_state` the piece is merely relocated.
    /// A move the board cannot accept returns `None` and changes nothing.
    #[verifier::rlimit(100)]
    pub fn play_move(&mut self, from: u8, to: u8, update_state: bool) -> (r: Option<CompletedMove>)
        requires
            old(self).wf(),
        ensures
            final(self).wf(),
            update_state ==> if play_ok(old(self)@, from as u64, to as u64) {
                &&& r == Some(spec_play_record(old(self)@, from as u64, to as u64))
                &&& final(self)@ == bv_play(old(self)@, from as u64, to as u64)
            } else {
                r is None && *final(self) == *old(self)
            },
            !update_state ==> if from < 64 && to < 64 && from != to && bv_at(old(self)@, from as u64) is Some {
                &&& r == Some(CompletedMove::spec_clean(from, to))
                &&& final(self)@ == bv_move_piece(old(self)@, from as u64, to as u64)
            } else {
                r is None && *final(self) == *old(self)
            },
    {
        let ghost v0 = self@;
        if from >= 64 || to >= 64 || from == to {
            return None;
        }
        let from_x = from % 8;
        let from_y = from / 8;
        let to_x = to % 8;
        let to_y = to / 8;
        let mbi_from = (from_y as usize) * 16 + (from_x as usize);
        let mbi_to = (to_y as usize) * 16 + (to_x as usize);
        proof {
            assert(mbi_from as int == spec_mb_index(from as int));
            assert(mbi_to as int == spec_mb_index(to as int));
        }
        let piece_opt = *self.mailbox.get_piece_at(mbi_from);
        if piece_opt.is_none() {
            return None;
        }
        let piece = piece_opt.unwrap();
        proof {
            assert(bv_slot(v0, spec_mb_index(from as int)) == Some(piece));
        }
        let team = piece.get_team();
        let kind = piece.get_piece();
        if !update_state {
            self.clear_square(from);
            self.clear_square(to);
            self.put_square(to, piece);
            proof {
                assert(self@ =~~= bv_move_piece(v0, from as u64, to as u64));
            }
            return Some(CompletedMove::clean(from, to));
        }
        let target = *self.mailbox.get_piece_at(mbi_to);
        if let Some(t) = target {
            if t.get_team() == team {
                return None;
            }
        }
        let is_dp = kind == Pieces::PAWN && (to == from + 16 || from == to + 16);
        let is_ep = kind == Pieces::PAWN && from_x != to_x && target.is_none();
        let is_castle = kind == Pieces::KING && (to == from + 2 || from == to + 2);
        let is_promo = kind == Pieces::PAWN && to_y == (if team == Teams::WHITE { 7 } else { 0 });
        if is_ep {
            if !((to_x == from_x + 1 || from_x == to_x + 1) && (to_y == from_y + 1 || from_y == to_y
                + 1)) {
                return None;
            }
            let vic_mb = (from_y as usize) * 16 + (to_x as usize);
            proof {
                assert(vic_mb as int == spec_mb_index(spec_ep_victim(from as u64, to as u64) as int));
            }
            let vic_piece = *self.mailbox.get_piece_at(vic_mb);
            let opp = get_opposite_team(team);
            match vic_piece {
                Some(GamePiece::Pawn(pt)) => {
                    if pt != opp {
                        return None;
                    }
                },
                _ => {
                    return None;
                },
            }
        }
        if is_castle {
            if from_x != 4 {
                return None;
            }
            if target.is_some() {
                return None;
            }
            let rook_from = if to == from + 2 { from + 3 } else { from - 4 };
            let rook_to = if to == from + 2 { from + 1 } else { from - 1 };
            let rf_mb = (rook_from as usize / 8) * 16 + (rook_from as usize % 8);
            let rt_mb = (rook_to as usize / 8) * 16 + (rook_to as usize % 8);
            proof {
                assert(rf_mb as int == spec_mb_index(spec_rook_from(from as u64, to as u64) as int));
                assert(rt_mb as int == spec_mb_index(spec_rook_to(from as u64, to as u64) as int));
            }
            if self.mailbox.get_piece_at(rt_mb).is_some() {
                return None;
            }
            match *self.mailbox.get_piece_at(rf_mb) {
                Some(GamePiece::Rook(rt)) => {
                    if rt != team {
                        return None;
                    }
                },
                _ => {
                    return None;
                },
            }
        }
        proof {
            assert(play_ok(v0, from as u64, to as u64));
        }
        // The record, including the scalar state the move is about to destroy.
        let capture_code: u8 = if is_ep {
            1u8
        } else {
            match target {
                Some(cap) => (cap.get_piece() + 1) as u8,
                None => 0u8,
            }
        };
        let bits_val: u8 = (if is_promo {
            1u8
        } else {
            0u8
        }) | (if is_castle {
            2u8
        } else {
            0u8
        }) | (if is_ep {
            4u8
        } else {
            0u8
        });
        let mv = CompletedMove {
            origin: from,
            target: to,
            capture: capture_code,
            bits: bits_val,
            prev_castling: self.state.castling_rights.bits(),
            prev_en_passant: match self.state.en_passant_square {
                Some(e) => Some(e as u8),
                None => None,
            },
        };
        // Board updates.
        if is_ep {
            let vic = from_y * 8 + to_x;
            self.clear_square(vic);
        }
        if is_castle {
            let rook_from = if to == from + 2 { from + 3 } else { from - 4 };
            let rook_to = if to == from + 2 { from + 1 } else { from - 1 };
            self.clear_square(rook_from);
            self.put_square(rook_to, GamePiece::Rook(team));
        }
        self.clear_square(from);
        self.clear_square(to);
        self.put_square(to, if is_promo { GamePiece::Queen(team) } else { piece });
        let ghost vb = self@;
        // Scalar updates.
        if kind == Pieces::KING {
            self.state.castling_rights.disallow_all(team);
        } else if kind == Pieces::ROOK {
            let ks_corner = if team == Teams::WHITE { 7 } else { 63 };
            let qs_corner = if team == Teams::WHITE { 0 } else { 56 };
            if from == ks_corner {
                self.state.castling_rights.disallow(team, 0);
            } else if from == qs_corner {
                self.state.castling_rights.disallow(team, 1);
            }
        }
        if let Some(cap) = target {
            if cap.get_piece() == Pieces::ROOK {
                let u = cap.get_team();
                let ks_corner = if u == Teams::WHITE { 7 } else { 63 };
                let qs_corner = if u == Teams::WHITE { 0 } else { 56 };
                if to == ks_corner {
                    self.state.castling_rights.disallow(u, 0);
                } else if to == qs_corner {
                    self.state.castling_rights.disallow(u, 1);
                }
            }
        }
        self.state.en_passant_square = if is_dp {
            Some(((from as usize) + (to as usize)) / 2)
        } else {
            None
        };
        self.state.team_to_play = get_opposite_team(self.state.team_to_play);
        proof {
            lemma_wf_scalars(vb, self@);
            assert(self@ =~~= bv_play(v0, from as u64, to as u64));
            assert(mv == spec_play_record(v0, from as u64, to as u64));
        }
        Some(mv)
    }

    /// Exactly reverses a move played by `play_move`, restoring the board,
    /// the castling rights, the en-passant target and the side to move.
    #[verifier::rlimit(100)]
    pub fn undo_move(&mut self, completed_move: CompletedMove)
        requires
            old(self).wf(),
            undo_ok(old(self)@, completed_move),
        ensures
            final(self).wf(),
            final(self)@ == bv_undo(old(self)@, completed_move),
    {
        let ghost v0 = self@;
        let from = completed_move.origin;
        let to = completed_move.target;
        let from_x = from % 8;
        let from_y = from / 8;
        let to_x = to % 8;
        let mbi_to = (to as usize / 8) * 16 + (to as usize % 8);
        proof {
            assert(mbi_to as int == spec_mb_index(to as int));
            assert(bv_slot(v0, spec_mb_index(to as int)) == bv_at(v0, to as u64));
        }
        let piece = (*self.mailbox.get_piece_at(mbi_to)).unwrap();
        let team = piece.get_team();
        self.clear_square(to);
        self.put_square(
            from,
            if completed_move.bits & CompletedMove::PROMOTION != 0 {
                GamePiece::Pawn(team)
            } else {
                piece
            },
        );
        if completed_move.bits & CompletedMove::EN_PASSANT != 0 {
            let vic = from_y * 8 + to_x;
            self.put_square(vic, GamePiece::Pawn(get_opposite_team(team)));
        } else if completed_move.capture != 0 {
            let restored = GamePiece::from((completed_move.capture - 1) as usize,
                get_opposite_team(team));
            self.put_square(to, restored);
        }
        if completed_move.bits & CompletedMove::CASTLING != 0 {
            let rook_from = if to == from + 2 { from + 3 } else { from - 4 };
            let rook_to = if to == from + 2 { from + 1 } else { from - 1 };
            self.clear_square(rook_to);
            self.put_square(rook_from, GamePiece::Rook(team));
        }
        let ghost vb = self@;
        self.state.castling_rights = crate::board::state::CastlingRights::from_bits(
            completed_move.prev_castling,
        );
        self.state.en_passant_square = match completed_move.prev_en_passant {
            Some(e) => Some(e as usize),
            None => None,
        };
        self.state.team_to_play = get_opposite_team(self.state.team_to_play);
        proof {
            lemma_wf_scalars(vb, self@);
            assert(self@ =~~= bv_undo(v0, completed_move));
        }
    }
}

/// Changing only the scalar state keeps the board invariant, provided the
/// new scalars are in range.
pub proof fn lemma_wf_scalars(a: BoardView, b: BoardView)
    requires
        bv_wf(a),
        b.pieces == a.pieces,
        b.sides == a.sides,
        b.mailbox == a.mailbox,
        b.turn < 2,
        b.ep matches Some(e) ==> e < 64,
    ensures
        bv_wf(b),
{
    assert forall|s: int, k: int, sq: u64|
        0 <= s < 2 && 0 <= k < 6 && sq < 64 implies (#[trigger] bit_at(bv_piece(b, s, k), sq)
        <==> bv_at(b, sq) == Some(spec_game_piece(k as usize, s as usize))) by {
        assert(bv_piece(b, s, k) == bv_piece(a, s, k));
        assert(bv_at(b, sq) == bv_at(a, sq));
    }
    assert forall|s: int, sq: u64| 0 <= s < 2 && sq < 64 implies (#[trigger] bit_at(
        bv_side(b, s),
        sq,
    ) <==> (bit_at(bv_piece(b, s, 0), sq) || bit_at(bv_piece(b, s, 1), sq) || bit_at(
        bv_piece(b, s, 2),
        sq,
    ) || bit_at(bv_piece(b, s, 3), sq) || bit_at(bv_piece(b, s, 4), sq) || bit_at(
        bv_piece(b, s, 5),
        sq,
    ))) by {
        assert(bv_side(b, s) == bv_side(a, s));
        assert(forall|k: int| 0 <= k < 6 ==> #[trigger] bv_piece(b, s, k) == bv_piece(a, s, k));
    }
    assert forall|i: int| 0 <= i < 128 && i % 16 >= 8 implies bv_slot(b, i) is None by {
        assert(bv_slot(b, i) == bv_slot(a, i));
    }
    assert forall|i: int| 0 <= i < 128 implies ((#[trigger] bv_slot(b, i)) matches Some(gp)
        ==> spec_piece_team(gp) < 2) by {
        assert(bv_slot(b, i) == bv_slot(a, i));
    }
}

/// How the flag byte of a move record decomposes into its three flags.
proof fn lemma_flag_bits(a: u8, b: u8, c: u8)
    by (bit_vector)
    requires
        a == 0 || a == 1,
        b == 0 || b == 2,
        c == 0 || c == 4,
    ensures
        ((a | b) | c) & 1 == a,
        ((a | b) | c) & 2 == b,
        ((a | b) | c) & 4 == c,
{
}

/// Undoing a played move restores the position exactly: board, castling
/// rights, en-passant target and side to move.
#[verifier::rlimit(60)]
pub proof fn lemma_play_undo_roundtrip(v: BoardView, from: u64, to: u64)
    requires
        bv_wf(v),
        play_ok(v, from, to),
    ensures
        undo_ok(bv_play(v, from, to), spec_play_record(v, from, to)),
        bv_undo(bv_play(v, from, to), spec_play_record(v, from, to)) == v,
{
    lemma_bit_clear();
    lemma_bit_set();
    lemma_bit_single();
    lemma_mb_index_injective();
    let w = bv_play(v, from, to);
    let m = spec_play_record(v, from, to);
    let mover = bv_mover(v, from);
    let t = spec_piece_team(mover);
    assert(bv_slot(v, spec_mb_index(from as int)) == bv_at(v, from));
    assert(t < 2);
    let promo = spec_is_promotion(v, from, to);
    let castle = spec_is_castle(v, from, to);
    let ep = spec_is_ep_capture(v, from, to);
    lemma_flag_bits(
        if promo { 1u8 } else { 0u8 },
        if castle { 2u8 } else { 0u8 },
        if ep { 4u8 } else { 0u8 },
    );
    assert(m.bits & CompletedMove::PROMOTION != 0 <==> promo);
    assert(m.bits & CompletedMove::CASTLING != 0 <==> castle);
    assert(m.bits & CompletedMove::EN_PASSANT != 0 <==> ep);
    let u = bv_undo(w, m);
    let mbf = spec_mb_index(from as int);
    let mbt = spec_mb_index(to as int);
    let vic = spec_ep_victim(from, to);
    let mbv = spec_mb_index(vic as int);
    let rf = spec_rook_from(from, to);
    let rt = spec_rook_to(from, to);
    let mbrf = spec_mb_index(rf as int);
    let mbrt = spec_mb_index(rt as int);
    if ep {
        assert(vic < 64 && vic != from && vic != to);
    }
    if castle {
        assert(rf < 64 && rt < 64);
        assert(rf != from && rf != to && rt != from && rt != to && rf != rt);
        if ep {
            assert(false);
        }
    }
    match bv_at(v, to) {
        Some(cap) => {
            assert(bv_slot(v, mbt) == Some(cap));
            assert(spec_piece_team(cap) < 2);
            assert(spec_piece_team(cap) == spec_opposite(t));
            assert(spec_game_piece(spec_piece_kind(cap), spec_piece_team(cap)) == cap);
        },
        None => {},
    }
    if promo {
        assert(mover == GamePiece::Pawn(t));
    }
    assert(spec_game_piece(spec_piece_kind(mover), t) == mover);
    assert forall|i: int| 0 <= i < 128 implies bv_slot(u, i) == bv_slot(v, i) by {
        if i == mbf {
        } else if i == mbt {
        } else if ep && i == mbv {
        } else if castle && i == mbrf {
        } else if castle && i == mbrt {
        } else {
        }
    }
    assert(u.mailbox =~= v.mailbox);
    assert forall|s: int, k: int| 0 <= s < 2 && 0 <= k < 6 implies #[trigger] bv_piece(u, s, k)
        == bv_piece(v, s, k) by {
        assert forall|i: u64| i < 64 implies (#[trigger] bit_at(bv_piece(u, s, k), i) <==> bit_at(
            bv_piece(v, s, k),
            i,
        )) by {
            if i == from {
            } else if i == to {
            } else if ep && i == vic {
            } else if castle && i == rf {
            } else if castle && i == rt {
            } else {
            }
        }
        lemma_bit_ext(bv_piece(u, s, k), bv_piece(v, s, k));
    }
    assert forall|s: int| 0 <= s < 2 implies #[trigger] bv_side(u, s) == bv_side(v, s) by {
        assert forall|i: u64| i < 64 implies (#[trigger] bit_at(bv_side(u, s), i) <==> bit_at(
            bv_side(v, s),
            i,
        )) by {
            if i == from {
            } else if i == to {
            } else if ep && i == vic {
            } else if castle && i == rf {
            } else if castle && i == rt {
            } else {
            }
        }
        lemma_bit_ext(bv_side(u, s), bv_side(v, s));
    }
    assert(u.pieces.len() == 2 && v.pieces.len() == 2);
    assert forall|s: int| 0 <= s < 2 implies u.pieces[s] =~= v.pieces[s] by {
        assert(u.pieces[s].len() == 6);
        assert(v.pieces[s].len() == 6);
        assert forall|k: int| 0 <= k < 6 implies u.pieces[s][k] == v.pieces[s][k] by {
            assert(bv_piece(u, s, k) == bv_piece(v, s, k));
        }
    }
    assert(u.pieces =~~= v.pieces);
    assert forall|s: int| 0 <= s < 2 implies u.sides[s] == v.sides[s] by {
        assert(bv_side(u, s) == bv_side(v, s));
    }
    assert(u.sides =~= v.sides);
    assert(u =~~= v);
}

/// No square is held by both sides, and the two occupancy sets together are
/// exactly the union of the twelve piece boards.
pub proof fn lemma_occupancy_partition(v: BoardView)
    requires
        bv_wf(v),
    ensures
        bv_side(v, 0) & bv_side(v, 1) == 0,
        bv_side(v, 0) | bv_side(v, 1) == (bv_piece(v, 0, 0) | bv_piece(v, 0, 1) | bv_piece(v, 0, 2)
            | bv_piece(v, 0, 3) | bv_piece(v, 0, 4) | bv_piece(v, 0, 5) | bv_piece(v, 1, 0)
            | bv_piece(v, 1, 1) | bv_piece(v, 1, 2) | bv_piece(v, 1, 3) | bv_piece(v, 1, 4)
            | bv_piece(v, 1, 5)),
{
    lemma_bit_and();
    lemma_bit_or();
    assert forall|i: u64| i < 64 implies !(#[trigger] bit_at(bv_side(v, 0) & bv_side(v, 1), i)) by {
        if bit_at(bv_side(v, 0), i) && bit_at(bv_side(v, 1), i) {
            assert(exists|k: int|
                0 <= k < 6 && #[trigger] bit_at(bv_piece(v, 0, k), i));
            assert(exists|k: int|
                0 <= k < 6 && #[trigger] bit_at(bv_piece(v, 1, k), i));
            let k0 = choose|k: int| 0 <= k < 6 && #[trigger] bit_at(bv_piece(v, 0, k), i);
            let k1 = choose|k: int| 0 <= k < 6 && #[trigger] bit_at(bv_piece(v, 1, k), i);
            assert(bv_at(v, i) == Some(spec_game_piece(k0 as usize, 0usize)));
            assert(bv_at(v, i) == Some(spec_game_piece(k1 as usize, 1usize)));
            assert(false);
        }
    }
    lemma_bit_zero(bv_side(v, 0) & bv_side(v, 1));
    assert forall|i: u64| i < 64 implies (#[trigger] bit_at(bv_side(v, 0) | bv_side(v, 1), i)
        <==> bit_at(
        bv_piece(v, 0, 0) | bv_piece(v, 0, 1) | bv_piece(v, 0, 2) | bv_piece(v, 0, 3) | bv_piece(
            v,
            0,
            4,
        ) | bv_piece(v, 0, 5) | bv_piece(v, 1, 0) | bv_piece(v, 1, 1) | bv_piece(v, 1, 2)
            | bv_piece(v, 1, 3) | bv_piece(v, 1, 4) | bv_piece(v, 1, 5),
        i,
    )) by {
    }
    lemma_bit_ext(
        bv_side(v, 0) | bv_side(v, 1),
        bv_piece(v, 0, 0) | bv_piece(v, 0, 1) | bv_piece(v, 0, 2) | bv_piece(v, 0, 3) | bv_piece(
            v,
            0,
            4,
        ) | bv_piece(v, 0, 5) | bv_piece(v, 1, 0) | bv_piece(v, 1, 1) | bv_piece(v, 1, 2)
            | bv_piece(v, 1, 3) | bv_piece(v, 1, 4) | bv_piece(v, 1, 5),
    );
}

/// The mailbox and the piece boards agree square by square: the mailbox holds
/// a piece on a square exactly when the piece's board has that square's bit.
pub proof fn lemma_mailbox_matches_bitboards(v: BoardView, s: int, k: int, sq: u64)
    requires
        bv_wf(v),
        0 <= s < 2,
        0 <= k < 6,
        sq < 64,
    ensures
        bit_at(bv_piece(v, s, k), sq) <==> bv_at(v, sq) == Some(
            spec_game_piece(k as usize, s as usize),
        ),
{
}

/// Emptying a square preserves the invariant.
pub proof fn lemma_bv_clear_wf(v: BoardView, sq: u64)
    requires
        bv_wf(v),
        sq < 64,
    ensures
        bv_wf(bv_clear(v, sq)),
{
    lemma_bit_clear();
    lemma_bit_set();
    lemma_bit_single();
    lemma_mb_index_injective();
    let w = bv_clear(v, sq);
    match bv_at(v, sq) {
        None => {
            assert(w == v);
        },
        Some(gp) => {
            let t = spec_piece_team(gp) as int;
            let c = spec_piece_kind(gp) as int;
            assert(bv_slot(v, spec_mb_index(sq as int)) == bv_at(v, sq));
            assert(spec_piece_team(gp) < 2);
            assert(spec_game_piece(c as usize, t as usize) == gp);
            assert(bit_at(bv_piece(v, t, c), sq));
            assert forall|s: int, k: int, sq2: u64|
                0 <= s < 2 && 0 <= k < 6 && sq2 < 64 implies (#[trigger] bit_at(
                bv_piece(w, s, k),
                sq2,
            ) <==> bv_at(w, sq2) == Some(spec_game_piece(k as usize, s as usize))) by {
                if sq2 == sq {
                    assert(bv_at(w, sq2) is None);
                    if s == t && k == c {
                        assert(!bit_at(bv_piece(w, s, k), sq2));
                    } else {
                        assert(bv_piece(w, s, k) == bv_piece(v, s, k));
                        assert(bit_at(bv_piece(v, s, k), sq2) ==> bv_at(v, sq2) == Some(
                            spec_game_piece(k as usize, s as usize),
                        ));
                        assert(Some(spec_game_piece(k as usize, s as usize)) != Some(gp));
                        assert(!bit_at(bv_piece(w, s, k), sq2));
                    }
                } else {
                    assert(spec_mb_index(sq2 as int) != spec_mb_index(sq as int));
                    assert(bv_at(w, sq2) == bv_at(v, sq2));
                    if s == t && k == c {
                        assert(bit_at(bv_piece(w, s, k), sq2) == bit_at(bv_piece(v, s, k), sq2));
                    } else {
                        assert(bv_piece(w, s, k) == bv_piece(v, s, k));
                    }
                }
            }
            assert forall|s: int, sq2: u64| 0 <= s < 2 && sq2 < 64 implies (#[trigger] bit_at(
                bv_side(w, s),
                sq2,
            ) <==> (bit_at(bv_piece(w, s, 0), sq2) || bit_at(bv_piece(w, s, 1), sq2) || bit_at(
                bv_piece(w, s, 2),
                sq2,
            ) || bit_at(bv_piece(w, s, 3), sq2) || bit_at(bv_piece(w, s, 4), sq2) || bit_at(
                bv_piece(w, s, 5),
                sq2,
            ))) by {
                if s != t {
                    assert(bv_side(w, s) == bv_side(v, s));
                    assert(forall|k: int|
                        0 <= k < 6 ==> #[trigger] bv_piece(w, s, k) == bv_piece(v, s, k));
                } else if sq2 == sq {
                    assert(!bit_at(bv_side(w, s), sq2));
                    // No piece of any kind keeps a bit on the emptied square.
                    assert forall|k: int| 0 <= k < 6 implies !(#[trigger] bit_at(
                        bv_piece(w, s, k),
                        sq2,
                    )) by {
                        if k != c {
                            assert(bv_piece(w, s, k) == bv_piece(v, s, k));
                            assert(bit_at(bv_piece(v, s, k), sq2) ==> bv_at(v, sq2) == Some(
                                spec_game_piece(k as usize, s as usize),
                            ));
                            assert(Some(spec_game_piece(k as usize, s as usize)) != Some(gp));
                        }
                    }
                } else {
                    assert(bit_at(bv_side(w, s), sq2) == bit_at(bv_side(v, s), sq2));
                    assert(bit_at(bv_piece(w, s, c), sq2) == bit_at(bv_piece(v, s, c), sq2));
                    assert(forall|k: int|
                        0 <= k < 6 && k != c ==> #[trigger] bv_piece(w, s, k) == bv_piece(v, s, k));
                }
            }
            assert forall|i: int| 0 <= i < 128 && i % 16 >= 8 implies bv_slot(w, i) is None by {
                assert(spec_mb_index(sq as int) % 16 < 8);
                assert(bv_slot(w, i) == bv_slot(v, i));
            }
            assert forall|i: int|
                0 <= i < 128 implies ((#[trigger] bv_slot(w, i)) matches Some(gp2)
                ==> spec_piece_team(gp2) < 2) by {
                if i != spec_mb_index(sq as int) {
                    assert(bv_slot(w, i) == bv_slot(v, i));
                }
            }
        },
    }
}

/// Placing a piece on an empty square preserves the invariant.
pub proof fn lemma_bv_put_wf(v: BoardView, sq: u64, gp: GamePiece)
    requires
        bv_wf(v),
        sq < 64,
        bv_at(v, sq) is None,
        spec_piece_team(gp) < 2,
    ensures
        bv_wf(bv_put(v, sq, gp)),
{
    lemma_bit_clear();
    lemma_bit_set();
    lemma_bit_single();
    lemma_mb_index_injective();
    let w = bv_put(v, sq, gp);
    let t = spec_piece_team(gp) as int;
    let c = spec_piece_kind(gp) as int;
    assert(spec_game_piece(c as usize, t as usize) == gp);
    // The square was empty, so no board had its bit set.
    assert forall|s: int, k: int| 0 <= s < 2 && 0 <= k < 6 implies !(#[trigger] bit_at(
        bv_piece(v, s, k),
        sq,
    )) by {
        assert(bit_at(bv_piece(v, s, k), sq) ==> bv_at(v, sq) == Some(
            spec_game_piece(k as usize, s as usize),
        ));
    }
    assert forall|s: int, k: int, sq2: u64|
        0 <= s < 2 && 0 <= k < 6 && sq2 < 64 implies (#[trigger] bit_at(bv_piece(w, s, k), sq2)
        <==> bv_at(w, sq2) == Some(spec_game_piece(k as usize, s as usize))) by {
        if sq2 == sq {
            assert(bv_at(w, sq2) == Some(gp));
            if s == t && k == c {
                assert(bit_at(bv_piece(w, s, k), sq2));
            } else {
                assert(bv_piece(w, s, k) == bv_piece(v, s, k));
                assert(Some(spec_game_piece(k as usize, s as usize)) != Some(gp));
            }
        } else {
            assert(spec_mb_index(sq2 as int) != spec_mb_index(sq as int));
            assert(bv_at(w, sq2) == bv_at(v, sq2));
            if s == t && k == c {
                assert(bit_at(bv_piece(w, s, k), sq2) == bit_at(bv_piece(v, s, k), sq2));
            } else {
                assert(bv_piece(w, s, k) == bv_piece(v, s, k));
            }
        }
    }
    assert forall|s: int, sq2: u64| 0 <= s < 2 && sq2 < 64 implies (#[trigger] bit_at(
        bv_side(w, s),
        sq2,
    ) <==> (bit_at(bv_piece(w, s, 0), sq2) || bit_at(bv_piece(w, s, 1), sq2) || bit_at(
        bv_piece(w, s, 2),
        sq2,
    ) || bit_at(bv_piece(w, s, 3), sq2) || bit_at(bv_piece(w, s, 4), sq2) || bit_at(
        bv_piece(w, s, 5),
        sq2,
    ))) by {
        if s != t {
            assert(bv_side(w, s) == bv_side(v, s));
            assert(forall|k: int| 0 <= k < 6 ==> #[trigger] bv_piece(w, s, k) == bv_piece(v, s, k));
        } else if sq2 == sq {
            assert(bit_at(bv_side(w, s), sq2));
            assert(bit_at(bv_piece(w, s, c), sq2));
        } else {
            assert(bit_at(bv_side(w, s), sq2) == bit_at(bv_side(v, s), sq2));
            assert(bit_at(bv_piece(w, s, c), sq2) == bit_at(bv_piece(v, s, c), sq2));
            assert(forall|k: int|
                0 <= k < 6 && k != c ==> #[trigger] bv_piece(w, s, k) == bv_piece(v, s, k));
        }
    }
    assert forall|i: int| 0 <= i < 128 && i % 16 >= 8 implies bv_slot(w, i) is None by {
        assert(spec_mb_index(sq as int) % 16 < 8);
        assert(bv_slot(w, i) == bv_slot(v, i));
    }
    assert forall|i: int|
        0 <= i < 128 implies ((#[trigger] bv_slot(w, i)) matches Some(gp2) ==> spec_piece_team(gp2)
        < 2) by {
        if i != spec_mb_index(sq as int) {
            assert(bv_slot(w, i) == bv_slot(v, i));
        }
    }
}

/// Distinct squares have distinct mailbox slots, and every square's slot is a
/// valid on-board slot.
pub proof fn lemma_mb_index_injective()
    ensures
        forall|a: int, b: int|
            0 <= a < 64 && 0 <= b < 64 && a != b ==> #[trigger] spec_mb_index(a)
                != #[trigger] spec_mb_index(b),
        forall|a: int|
            0 <= a < 64 ==> 0 <= #[trigger] spec_mb_index(a) < 128 && spec_mb_index(a) % 16 < 8,
{
    assert forall|a: int, b: int|
        0 <= a < 64 && 0 <= b < 64 && a != b implies #[trigger] spec_mb_index(a)
        != #[trigger] spec_mb_index(b) by {
        assert(spec_mb_index(a) % 16 == a % 8);
        assert(spec_mb_index(a) / 16 == a / 8);
        assert(spec_mb_index(b) % 16 == b % 8);
        assert(spec_mb_index(b) / 16 == b / 8);
    }
    assert forall|a: int| 0 <= a < 64 implies 0 <= #[trigger] spec_mb_index(a) < 128
        && spec_mb_index(a) % 16 < 8 by {
        assert(spec_mb_index(a) % 16 == a % 8);
    }
}

impl ExperimentalData {
    pub fn new() -> (r: Self)
        ensures
            r.last_move is None,
    {
        Self { last_move: None }
    }

    pub fn set_last_move(&mut self, last_move: CompletedMove)
        ensures
            final(self).last_move == Some(last_move),
    {
        self.last_move = Some(last_move);
    }

    pub fn get_last_move(&self) -> (r: &Option<CompletedMove>)
        ensures
            *r == self.last_move,
    {
        &self.last_move
    }
}

} // verus!
