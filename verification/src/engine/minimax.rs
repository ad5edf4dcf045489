//! Fixed-depth search: the game value of a position, a plain negamax that
//! computes it, an alpha-beta negamax proved window-invariant, and the
//! transposition-table engine built on them.

use vstd::prelude::*;
use std::collections::HashMap;
use crate::board::{CompletedMove, Team, Teams, get_opposite_team, spec_opposite};
use crate::board::board::{BoardView, bv_in_check, bv_legal_move, bv_material, bv_play, ChessBoard,
    lemma_play_undo_roundtrip, play_ok, spec_play_record};
use crate::engine::ChessEngine;
use crate::hash::ZobristHash;

verus! {

/// A score no real line can reach: mate scores stay strictly inside it.
pub const INF: i32 = 1_000_000_000;

/// The magnitude of a mate score; it dominates any material balance.
pub const MATE_VALUE: i32 = 10_000_000;

/// Whether the side to move has any legal move.
pub open spec fn spec_has_legal_move(v: BoardView) -> bool {
    exists|f: u64, t: u64| #[trigger] bv_legal_move(v, v.turn, f, t)
}

/// The value of the best move among those encoded below `n` (a move (f, t)
/// is encoded as `f * 64 + t`): the maximum over the legal ones of the
/// negated value of the position after the move.
pub open spec fn spec_best_upto(v: BoardView, d: nat, n: int) -> int
    decreases d, n,
{
    if n <= 0 || d <= 0 {
        -(INF as int)
    } else {
        let f = ((n - 1) / 64) as u64;
        let t = ((n - 1) % 64) as u64;
        let rest = spec_best_upto(v, d, n - 1);
        if bv_legal_move(v, v.turn, f, t) {
            let s = -spec_game_value(bv_play(v, f, t), (d - 1) as nat);
            if s > rest {
                s
            } else {
                rest
            }
        } else {
            rest
        }
    }
}

/// The negamax value of a position for the side to move: with no legal move,
/// a mate score (more negative the more depth remains, so that shorter mates
/// dominate) or zero for stalemate; at depth zero the material balance; else
/// the best value over all legal moves.
pub open spec fn spec_game_value(v: BoardView, d: nat) -> int
    decreases d, 4097int,
{
    if !spec_has_legal_move(v) {
        if bv_in_check(v, v.turn as int) {
            -(MATE_VALUE + d)
        } else {
            0
        }
    } else if d == 0 {
        bv_material(v, v.turn as int)
    } else {
        spec_best_upto(v, d, 4096)
    }
}

/// The material balance stays within the sum of all piece values.
pub proof fn lemma_material_upto_bound(v: BoardView, team: int, n: int)
    requires
        0 <= n,
    ensures
        -640000 * n <= crate::board::board::bv_material_upto(v, team, n),
        crate::board::board::bv_material_upto(v, team, n) <= 640000 * n,
    decreases n,
{
    if n > 0 {
        lemma_material_upto_bound(v, team, n - 1);
        let a = crate::bits::count_bits(crate::board::board::bv_piece(v, team, n - 1));
        let b = crate::bits::count_bits(crate::board::board::bv_piece(v, 1 - team, n - 1));
        crate::bits::lemma_count_bits_bound(crate::board::board::bv_piece(v, team, n - 1));
        crate::bits::lemma_count_bits_bound(crate::board::board::bv_piece(v, 1 - team, n - 1));
        let d = a - b;
        let w = crate::engine::spec_piece_value((n - 1) as usize);
        assert(-640000 <= d * w <= 640000) by (nonlinear_arith)
            requires
                -64 <= d <= 64 && 100 <= w <= 10000,
        ;
        assert(crate::board::board::bv_material_upto(v, team, n)
            == crate::board::board::bv_material_upto(v, team, n - 1) + d * w);
        assert(-640000 * n == -640000 * (n - 1) + -640000);
        assert(640000 * n == 640000 * (n - 1) + 640000);
    }
}

/// The material balance is dominated by the mate score.
pub proof fn lemma_material_bound(v: BoardView, team: int)
    ensures
        -3840000 <= bv_material(v, team) <= 3840000,
{
    lemma_material_upto_bound(v, team, 6);
}

/// The best-move fold is at least the value of any legal move it covers.
pub proof fn lemma_best_upto_ge(v: BoardView, d: nat, n: int, f: u64, t: u64)
    requires
        d > 0,
        f < 64,
        t < 64,
        bv_legal_move(v, v.turn, f, t),
        f * 64 + t < n <= 4096,
    ensures
        spec_best_upto(v, d, n) >= -spec_game_value(bv_play(v, f, t), (d - 1) as nat),
    decreases n,
{
    if n - 1 == f * 64 + t {
        assert(((n - 1) / 64) as u64 == f && ((n - 1) % 64) as u64 == t);
    } else {
        lemma_best_upto_ge(v, d, n - 1, f, t);
    }
}

/// The best-move fold is the sentinel or the value of one of the legal moves
/// it covers.
pub proof fn lemma_best_upto_shape(v: BoardView, d: nat, n: int)
    requires
        d > 0,
        n <= 4096,
    ensures
        spec_best_upto(v, d, n) == -(INF as int) || exists|f: u64, t: u64|
            f < 64 && t < 64 && #[trigger] bv_legal_move(v, v.turn, f, t) && f * 64 + t < n
                && spec_best_upto(v, d, n) == -spec_game_value(bv_play(v, f, t), (d - 1) as nat),
    decreases n,
{
    if n > 0 {
        lemma_best_upto_shape(v, d, n - 1);
        let f = ((n - 1) / 64) as u64;
        let t = ((n - 1) % 64) as u64;
        if bv_legal_move(v, v.turn, f, t) && -spec_game_value(bv_play(v, f, t), (d - 1) as nat)
            > spec_best_upto(v, d, n - 1) {
            assert(f < 64 && t < 64 && f * 64 + t < n);
        } else {
            if spec_best_upto(v, d, n - 1) != -(INF as int) {
                let (f2, t2) = choose|f2: u64, t2: u64|
                    f2 < 64 && t2 < 64 && #[trigger] bv_legal_move(v, v.turn, f2, t2) && f2 * 64
                        + t2 < n - 1 && spec_best_upto(v, d, n - 1) == -spec_game_value(
                        bv_play(v, f2, t2),
                        (d - 1) as nat,
                    );
                assert(f2 * 64 + t2 < n);
            }
        }
    }
}

/// Game values stay strictly inside the mate bound for their depth.
pub proof fn lemma_game_value_bound(v: BoardView, d: nat)
    requires
        d <= 255,
    ensures
        -(MATE_VALUE + d) <= spec_game_value(v, d) <= MATE_VALUE + d,
    decreases d,
{
    if !spec_has_legal_move(v) {
    } else if d == 0 {
        lemma_material_bound(v, v.turn as int);
    } else {
        lemma_best_upto_shape(v, d, 4096);
        let (f, t) = choose|f: u64, t: u64| #[trigger] bv_legal_move(v, v.turn, f, t);
        assert(bv_legal_move(v, v.turn, f, t));
        assert(f < 64 && t < 64);
        assert(f * 64 + t < 4096);
        lemma_game_value_bound(bv_play(v, f, t), (d - 1) as nat);
        lemma_best_upto_ge(v, d, 4096, f, t);
        if spec_best_upto(v, d, 4096) == -(INF as int) {
            assert(false);
        } else {
            let (f2, t2) = choose|f2: u64, t2: u64|
                f2 < 64 && t2 < 64 && #[trigger] bv_legal_move(v, v.turn, f2, t2) && f2 * 64 + t2
                    < 4096 && spec_best_upto(v, d, 4096) == -spec_game_value(
                    bv_play(v, f2, t2),
                    (d - 1) as nat,
                );
            lemma_game_value_bound(bv_play(v, f2, t2), (d - 1) as nat);
        }
    }
}


/// The value of a legal move: the negated game value of the position after it.
pub open spec fn spec_move_value(v: BoardView, d: nat, f: u64, t: u64) -> int {
    -spec_game_value(bv_play(v, f, t), (d - 1) as nat)
}

/// A reference negamax without pruning: it computes the game value exactly.
/// The position is handed back as it came.
#[verifier::rlimit(100)]
pub fn plain_negamax(board: &mut ChessBoard, depth: u8) -> (r: i32)
    requires
        old(board).wf(),
    ensures
        final(board).wf(),
        final(board)@ == old(board)@,
        r == spec_game_value(old(board)@, depth as nat),
        -(MATE_VALUE + depth as i32) <= r <= MATE_VALUE + depth as i32,
    decreases depth,
{
    let ghost v = board@;
    let turn = board.state.team_to_play;
    let moves = board.generate_moves(turn);
    if moves.len() == 0 {
        proof {
            if spec_has_legal_move(v) {
                let (f, t) = choose|f: u64, t: u64| #[trigger] bv_legal_move(v, v.turn, f, t);
                assert(false);
            }
        }
        if board.is_in_check(turn) {
            -(MATE_VALUE + depth as i32)
        } else {
            0
        }
    } else if depth == 0 {
        proof {
            assert(bv_legal_move(v, v.turn, moves[0].origin as u64, moves[0].target as u64));
            lemma_material_bound(v, v.turn as int);
        }
        board.evaluate(turn)
    } else {
        proof {
            assert(bv_legal_move(v, v.turn, moves[0].origin as u64, moves[0].target as u64));
        }
        let mut best: i32 = -INF;
        let mut i: usize = 0;
        while i < moves.len()
            invariant
                i <= moves.len(),
                0 < depth <= 255,
                board.wf(),
                board@ == v,
                v.turn == turn,
                turn < 2,
                forall|j: int|
                    0 <= j < moves.len() ==> {
                        let m = #[trigger] moves[j];
                        &&& bv_legal_move(v, turn, m.origin as u64, m.target as u64)
                        &&& m == spec_play_record(v, m.origin as u64, m.target as u64)
                    },
                forall|f: u64, t: u64|
                    #[trigger] bv_legal_move(v, turn, f, t) ==> exists|j: int|
                        0 <= j < moves.len() && (#[trigger] moves[j]).origin == f
                            && moves[j].target == t,
                forall|j: int|
                    0 <= j < i ==> spec_move_value(
                        v,
                        depth as nat,
                        (#[trigger] moves[j]).origin as u64,
                        moves[j].target as u64,
                    ) <= best,
                i == 0 ==> best == -INF,
                i > 0 ==> exists|j: int|
                    0 <= j < i && best == spec_move_value(
                        v,
                        depth as nat,
                        (#[trigger] moves[j]).origin as u64,
                        moves[j].target as u64,
                    ),
                i > 0 ==> -(MATE_VALUE + depth as i32) <= best <= MATE_VALUE + depth as i32,
            decreases moves.len() - i,
        {
            let ghost best0 = best;
            let m = moves[i];
            let rec_opt = board.play_move(m.origin, m.target, true);
            let rec = match rec_opt {
                Some(rc) => rc,
                None => {
                    proof {
                        assert(false);
                    }
                    CompletedMove::clean(0, 1)
                },
            };
            let child = plain_negamax(board, depth - 1);
            proof {
                lemma_play_undo_roundtrip(v, m.origin as u64, m.target as u64);
            }
            board.undo_move(rec);
            let s = -child;
            proof {
                assert(s == spec_move_value(v, depth as nat, m.origin as u64, m.target as u64));
            }
            if s > best {
                best = s;
            }
            proof {
                assert(exists|j: int|
                    0 <= j < i + 1 && best == spec_move_value(
                        v,
                        depth as nat,
                        (#[trigger] moves[j]).origin as u64,
                        moves[j].target as u64,
                    )) by {
                    if s > best0 {
                        assert(best == spec_move_value(
                            v,
                            depth as nat,
                            (#[trigger] moves[i as int]).origin as u64,
                            moves[i as int].target as u64,
                        ));
                    } else {
                        let j = choose|j: int|
                            0 <= j < i && best0 == spec_move_value(
                                v,
                                depth as nat,
                                (#[trigger] moves[j]).origin as u64,
                                moves[j].target as u64,
                            );
                        assert(best == spec_move_value(
                            v,
                            depth as nat,
                            (#[trigger] moves[j]).origin as u64,
                            moves[j].target as u64,
                        ));
                    }
                }
            }
            i = i + 1;
        }
        proof {
            lemma_best_upto_shape(v, depth as nat, 4096);
            // The loop maximum equals the fold over all encoded moves.
            let bu = spec_best_upto(v, depth as nat, 4096);
            let j = choose|j: int|
                0 <= j < moves.len() && best == spec_move_value(
                    v,
                    depth as nat,
                    (#[trigger] moves[j]).origin as u64,
                    moves[j].target as u64,
                );
            lemma_best_upto_ge(
                v,
                depth as nat,
                4096,
                moves[j].origin as u64,
                moves[j].target as u64,
            );
            assert(bu >= best);
            if bu == -(INF as int) {
                assert(best <= bu);
            } else {
                let (f2, t2) = choose|f2: u64, t2: u64|
                    f2 < 64 && t2 < 64 && #[trigger] bv_legal_move(v, v.turn, f2, t2) && f2 * 64
                        + t2 < 4096 && bu == -spec_game_value(bv_play(v, f2, t2), (depth - 1) as nat);
                let k = choose|k: int|
                    0 <= k < moves.len() && (#[trigger] moves[k]).origin == f2 && moves[k].target
                        == t2;
                assert(spec_move_value(v, depth as nat, moves[k].origin as u64, moves[k].target as u64)
                    <= best);
                assert(bu <= best);
            }
            assert(best == bu);
        }
        best
    }
}


/// Alpha-beta negamax, fail-soft and without a table. Its result relates to
/// the true game value in the classical way: a result inside the window is
/// the game value exactly, a result at or below alpha bounds the game value
/// from above, and a result at or above beta bounds it from below. With the
/// full window it therefore returns exactly what the plain negamax returns.
#[verifier::rlimit(100)]
pub fn negamax_alpha_beta(board: &mut ChessBoard, depth: u8, alpha: i32, beta: i32) -> (r: i32)
    requires
        old(board).wf(),
        -INF <= alpha < beta <= INF,
    ensures
        final(board).wf(),
        final(board)@ == old(board)@,
        r <= alpha ==> spec_game_value(old(board)@, depth as nat) <= alpha,
        alpha < r < beta ==> r == spec_game_value(old(board)@, depth as nat),
        r >= beta ==> spec_game_value(old(board)@, depth as nat) >= beta,
        -(MATE_VALUE + depth as i32) <= r <= MATE_VALUE + depth as i32,
    decreases depth,
{
    let ghost v = board@;
    let turn = board.state.team_to_play;
    let moves = board.generate_moves(turn);
    if moves.len() == 0 {
        proof {
            if spec_has_legal_move(v) {
                let (f, t) = choose|f: u64, t: u64| #[trigger] bv_legal_move(v, v.turn, f, t);
                assert(false);
            }
        }
        if board.is_in_check(turn) {
            -(MATE_VALUE + depth as i32)
        } else {
            0
        }
    } else if depth == 0 {
        proof {
            assert(bv_legal_move(v, v.turn, moves[0].origin as u64, moves[0].target as u64));
            lemma_material_bound(v, v.turn as int);
        }
        board.evaluate(turn)
    } else {
        proof {
            assert(bv_legal_move(v, v.turn, moves[0].origin as u64, moves[0].target as u64));
        }
        let mut best: i32 = -INF;
        let mut a: i32 = alpha;
        let mut cut = false;
        let mut i: usize = 0;
        while i < moves.len() && !cut
            invariant
                i <= moves.len(),
                0 < depth <= 255,
                -INF <= alpha < beta <= INF,
                board.wf(),
                board@ == v,
                v.turn == turn,
                turn < 2,
                forall|j: int|
                    0 <= j < moves.len() ==> {
                        let m = #[trigger] moves[j];
                        &&& bv_legal_move(v, turn, m.origin as u64, m.target as u64)
                        &&& m == spec_play_record(v, m.origin as u64, m.target as u64)
                    },
                forall|f: u64, t: u64|
                    #[trigger] bv_legal_move(v, turn, f, t) ==> exists|j: int|
                        0 <= j < moves.len() && (#[trigger] moves[j]).origin == f
                            && moves[j].target == t,
                a == if best > alpha {
                    best
                } else {
                    alpha
                },
                i == 0 ==> best == -INF && !cut,
                !cut ==> a < beta,
                i > 0 ==> -(MATE_VALUE + depth as i32) <= best <= MATE_VALUE + depth as i32,
                // every processed move's value is bounded by what we keep
                !cut ==> forall|j: int|
                    0 <= j < i ==> spec_move_value(
                        v,
                        depth as nat,
                        (#[trigger] moves[j]).origin as u64,
                        moves[j].target as u64,
                    ) <= if best > alpha {
                        best
                    } else {
                        alpha
                    },
                // the best we keep is witnessed exactly or as a lower bound
                best > alpha ==> exists|j: int|
                    0 <= j < i && #[trigger] moves[j] == moves[j] && (if best < beta {
                        spec_move_value(v, depth as nat, moves[j].origin as u64, moves[j].target as u64)
                            == best
                    } else {
                        spec_move_value(v, depth as nat, moves[j].origin as u64, moves[j].target as u64)
                            >= beta
                    }),
                cut ==> best >= beta,
            decreases moves.len() - i,
        {
            let ghost best0 = best;
            let ghost a0 = a;
            let m = moves[i];
            let rec_opt = board.play_move(m.origin, m.target, true);
            let rec = match rec_opt {
                Some(rc) => rc,
                None => {
                    proof {
                        assert(false);
                    }
                    CompletedMove::clean(0, 1)
                },
            };
            proof {
                assert(-INF <= -beta < -a <= INF);
            }
            let child = negamax_alpha_beta(board, depth - 1, -beta, -a);
            proof {
                lemma_play_undo_roundtrip(v, m.origin as u64, m.target as u64);
                lemma_game_value_bound(bv_play(v, m.origin as u64, m.target as u64), (depth - 1) as nat);
            }
            board.undo_move(rec);
            let s = -child;
            let ghost val = spec_move_value(v, depth as nat, m.origin as u64, m.target as u64);
            proof {
                // translate the child's window facts to this move's value
                assert(child <= -beta ==> val >= beta);
                assert(-beta < child < -a ==> s == val);
                assert(child >= -a ==> val <= a0);
            }
            if s > best {
                best = s;
            }
            if best > a {
                a = best;
            }
            if a >= beta {
                cut = true;
            }
            proof {
                if !cut {
                    assert forall|j: int| 0 <= j < i + 1 implies spec_move_value(
                        v,
                        depth as nat,
                        (#[trigger] moves[j]).origin as u64,
                        moves[j].target as u64,
                    ) <= if best > alpha {
                        best
                    } else {
                        alpha
                    } by {
                        if j == i {
                            if s <= a0 {
                                assert(val <= a0);
                            } else {
                                assert(s == val || val >= beta);
                                assert(val == s);
                            }
                        }
                    }
                }
                if best > alpha {
                    if best == best0 {
                        assert(best0 > alpha);
                    } else {
                        assert(best == s);
                        if s <= a0 {
                            assert(s <= alpha || s <= best0);
                            assert(false);
                        }
                        assert(s == val || val >= beta);
                    }
                }
            }
            i = i + 1;
        }
        proof {
            lemma_best_upto_shape(v, depth as nat, 4096);
            let gv = spec_game_value(v, depth as nat);
            assert(gv == spec_best_upto(v, depth as nat, 4096));
            lemma_game_value_bound(v, depth as nat);
            if cut {
                // a move worth at least beta exists
                let j = choose|j: int|
                    0 <= j < i && #[trigger] moves[j] == moves[j] && (if best < beta {
                        spec_move_value(v, depth as nat, moves[j].origin as u64, moves[j].target as u64)
                            == best
                    } else {
                        spec_move_value(v, depth as nat, moves[j].origin as u64, moves[j].target as u64)
                            >= beta
                    });
                lemma_best_upto_ge(v, depth as nat, 4096, moves[j].origin as u64, moves[j].target as u64);
            } else {
                // all moves were searched
                if best <= alpha {
                    if gv > alpha {
                        if spec_best_upto(v, depth as nat, 4096) == -(INF as int) {
                        } else {
                            let (f2, t2) = choose|f2: u64, t2: u64|
                                f2 < 64 && t2 < 64 && #[trigger] bv_legal_move(v, v.turn, f2, t2)
                                    && f2 * 64 + t2 < 4096 && spec_best_upto(v, depth as nat, 4096)
                                    == -spec_game_value(bv_play(v, f2, t2), (depth - 1) as nat);
                            let k = choose|k: int|
                                0 <= k < moves.len() && (#[trigger] moves[k]).origin == f2
                                    && moves[k].target == t2;
                            assert(spec_move_value(v, depth as nat, f2, t2) <= alpha);
                            assert(false);
                        }
                    }
                } else if best < beta {
                    // exact: witnessed from below, bounded from above
                    let j = choose|j: int|
                        0 <= j < i && #[trigger] moves[j] == moves[j] && (if best < beta {
                            spec_move_value(v, depth as nat, moves[j].origin as u64, moves[j].target as u64)
                                == best
                        } else {
                            spec_move_value(v, depth as nat, moves[j].origin as u64, moves[j].target as u64)
                                >= beta
                        });
                    lemma_best_upto_ge(v, depth as nat, 4096, moves[j].origin as u64, moves[j].target as u64);
                    assert(gv >= best);
                    if spec_best_upto(v, depth as nat, 4096) == -(INF as int) {
                    } else {
                        let (f2, t2) = choose|f2: u64, t2: u64|
                            f2 < 64 && t2 < 64 && #[trigger] bv_legal_move(v, v.turn, f2, t2)
                                && f2 * 64 + t2 < 4096 && spec_best_upto(v, depth as nat, 4096)
                                == -spec_game_value(bv_play(v, f2, t2), (depth - 1) as nat);
                        let k = choose|k: int|
                            0 <= k < moves.len() && (#[trigger] moves[k]).origin == f2
                                && moves[k].target == t2;
                        assert(spec_move_value(v, depth as nat, f2, t2) <= best);
                        assert(gv <= best);
                    }
                } else {
                    // best >= beta without a cut cannot happen, but the bound
                    // holds either way through the witness
                    let j = choose|j: int|
                        0 <= j < i && #[trigger] moves[j] == moves[j] && (if best < beta {
                            spec_move_value(v, depth as nat, moves[j].origin as u64, moves[j].target as u64)
                                == best
                        } else {
                            spec_move_value(v, depth as nat, moves[j].origin as u64, moves[j].target as u64)
                                >= beta
                        });
                    lemma_best_upto_ge(v, depth as nat, 4096, moves[j].origin as u64, moves[j].target as u64);
                }
            }
            if best < -(MATE_VALUE + depth as i32) || best > MATE_VALUE + depth as i32 {
                assert(i > 0);
            }
        }
        best
    }
}


/// Counts the leaf nodes of the legal game tree to the given depth. The
/// position is handed back as it came.
pub fn perft(board: &mut ChessBoard, depth: u8) -> (count: u64)
    requires
        old(board).wf(),
    ensures
        final(board).wf(),
        final(board)@ == old(board)@,
    decreases depth,
{
    if depth == 0 {
        return 1;
    }
    let ghost v = board@;
    let turn = board.state.team_to_play;
    let moves = board.generate_moves(turn);
    let mut count: u64 = 0;
    let mut i: usize = 0;
    while i < moves.len()
        invariant
            i <= moves.len(),
            depth >= 1,
            board.wf(),
            board@ == v,
            turn == v.turn || turn < 2,
            forall|j: int|
                0 <= j < moves.len() ==> {
                    let m = #[trigger] moves[j];
                    &&& bv_legal_move(v, turn, m.origin as u64, m.target as u64)
                    &&& m == spec_play_record(v, m.origin as u64, m.target as u64)
                },
        decreases moves.len() - i,
    {
        let m = moves[i];
        let rec_opt = board.play_move(m.origin, m.target, true);
        let rec = match rec_opt {
            Some(rc) => rc,
            None => {
                proof {
                    assert(false);
                }
                CompletedMove::clean(0, 1)
            },
        };
        let below = perft(board, depth - 1);
        proof {
            lemma_play_undo_roundtrip(v, m.origin as u64, m.target as u64);
        }
        board.undo_move(rec);
        count = count.saturating_add(below);
        i = i + 1;
    }
    count
}

/// Whether two positions hold the same board, scalar state and turn: their
/// views are equal exactly when this returns true.
pub fn boards_equal(a: &ChessBoard, b: &ChessBoard) -> (r: bool)
    ensures
        r == (a@ == b@),
{
    let mut s: usize = 0;
    while s < 2
        invariant
            s <= 2,
            forall|s2: int, k2: int|
                0 <= s2 < s && 0 <= k2 < 6 ==> #[trigger] a.bits.spec_pieces(s2, k2)
                    == b.bits.spec_pieces(s2, k2),
            forall|s2: int| 0 <= s2 < s ==> #[trigger] a.bits.spec_side(s2) == b.bits.spec_side(s2),
        decreases 2 - s,
    {
        if a.bits.get_team_pieces(s).0 != b.bits.get_team_pieces(s).0 {
            proof {
                assert(a@.sides[s as int] != b@.sides[s as int]);
            }
            return false;
        }
        let mut k: usize = 0;
        while k < 6
            invariant
                s < 2,
                k <= 6,
                forall|s2: int, k2: int|
                    0 <= s2 < s && 0 <= k2 < 6 ==> #[trigger] a.bits.spec_pieces(s2, k2)
                        == b.bits.spec_pieces(s2, k2),
                forall|k2: int|
                    0 <= k2 < k ==> #[trigger] a.bits.spec_pieces(s as int, k2)
                        == b.bits.spec_pieces(s as int, k2),
            decreases 6 - k,
        {
            if a.bits.get_pieces(s, k).0 != b.bits.get_pieces(s, k).0 {
                proof {
                    assert(a@.pieces[s as int][k as int] != b@.pieces[s as int][k as int]);
                }
                return false;
            }
            k = k + 1;
        }
        s = s + 1;
    }
    let mut i: usize = 0;
    while i < 128
        invariant
            i <= 128,
            forall|s2: int, k2: int|
                0 <= s2 < 2 && 0 <= k2 < 6 ==> #[trigger] a.bits.spec_pieces(s2, k2)
                    == b.bits.spec_pieces(s2, k2),
            forall|s2: int| 0 <= s2 < 2 ==> #[trigger] a.bits.spec_side(s2) == b.bits.spec_side(s2),
            forall|j: int| 0 <= j < i ==> #[trigger] a.mailbox.spec_at(j) == b.mailbox.spec_at(j),
        decreases 128 - i,
    {
        let pa = *a.mailbox.get_piece_at(i);
        let pb = *b.mailbox.get_piece_at(i);
        let same = match (pa, pb) {
            (None, None) => true,
            (Some(x), Some(y)) => x == y,
            _ => false,
        };
        if !same {
            proof {
                assert(a@.mailbox[i as int] != b@.mailbox[i as int]);
            }
            return false;
        }
        i = i + 1;
    }
    if a.state.castling_rights.bits() != b.state.castling_rights.bits() {
        return false;
    }
    let ep_same = match (a.state.en_passant_square, b.state.en_passant_square) {
        (None, None) => true,
        (Some(x), Some(y)) => x == y,
        _ => false,
    };
    if !ep_same {
        return false;
    }
    if a.state.team_to_play != b.state.team_to_play {
        return false;
    }
    proof {
        assert(a@.pieces =~~= b@.pieces);
        assert(a@.sides =~= b@.sides);
        assert(a@.mailbox =~= b@.mailbox);
        assert(a@ =~~= b@);
    }
    true
}

/// The search with a transposition table, keyed by the Zobrist fingerprint
/// of the position. Each entry keeps the position and the depth beside the
/// score, and a cached score is reused only for the very same position at
/// the very same depth, so every score handed out is exactly the game value;
/// uncached nodes are searched by the proved alpha-beta over the full
/// window, which makes their scores exact too.
pub struct MinimaxEngine {
    zobrist: ZobristHash,
    transposition_table: HashMap<u64, (ChessBoard, u8, i32)>,
}

impl MinimaxEngine {
    /// Every cached entry scores its own position exactly at its depth.
    pub closed spec fn wf(self) -> bool {
        forall|k: u64|
            self.transposition_table@.dom().contains(k) ==> {
                let (b, d, sc) = #[trigger] self.transposition_table@[k];
                &&& b.wf()
                &&& sc == spec_game_value(b@, d as nat)
            }
    }

    /// The game value of the position at the given depth, from `team`'s
    /// point of view, through the table. The window arguments are advisory:
    /// the table holds exact scores, so uncached nodes are searched with the
    /// full window whatever is passed.
    fn minimax(
        &mut self,
        board: &mut ChessBoard,
        depth: u8,
        team: Team,
        alpha: i32,
        beta: i32,
    ) -> (score: i32)
        requires
            old(self).wf(),
            old(board).wf(),
            team < 2,
            -INF <= alpha <= INF,
            -INF <= beta <= INF,
        ensures
            final(self).wf(),
            final(board).wf(),
            final(board)@ == old(board)@,
            score == if team == old(board)@.turn {
                spec_game_value(old(board)@, depth as nat)
            } else {
                -spec_game_value(old(board)@, depth as nat)
            },
            -(MATE_VALUE + depth as i32) <= score <= MATE_VALUE + depth as i32,
    {
        let ghost v = board@;
        proof {
            lemma_game_value_bound(v, depth as nat);
        }
        let zobrist = self.zobrist.hash(board);
        let mut cached: Option<i32> = None;
        if let Some(entry) = self.transposition_table.get(&zobrist) {
            let (stored_board, stored_depth, stored_score) = *entry;
            if stored_depth == depth && boards_equal(&stored_board, board) {
                cached = Some(stored_score);
                proof {
                    assert(stored_board@ == v);
                    assert(stored_score == spec_game_value(v, depth as nat));
                }
            }
        }
        let value = match cached {
            Some(sc) => sc,
            None => {
                let sc = negamax_alpha_beta(board, depth, -INF, INF);
                proof {
                    assert(-INF < sc < INF);
                    assert(sc == spec_game_value(v, depth as nat));
                }
                let ghost tt0 = self.transposition_table@;
                self.transposition_table.insert(zobrist, (*board, depth, sc));
                proof {
                    assert forall|k: u64|
                        self.transposition_table@.dom().contains(k) implies {
                        let (b, d, s2) = #[trigger] self.transposition_table@[k];
                        &&& b.wf()
                        &&& s2 == spec_game_value(b@, d as nat)
                    } by {
                        if k != zobrist {
                            assert(self.transposition_table@[k] == tt0[k]);
                        }
                    }
                }
                sc
            },
        };
        let turn = board.state.team_to_play;
        if team == turn {
            value
        } else {
            -value
        }
    }
}

impl ChessEngine for MinimaxEngine {
    fn new() -> Self {
        MinimaxEngine { zobrist: ZobristHash::new(), transposition_table: HashMap::new() }
    }

    #[verifier::rlimit(100)]
    fn get_best_move(&mut self, board: &ChessBoard, depth: u8) -> (r: Option<CompletedMove>) {
        let ghost v = board@;
        // The table is owned by this search: start clean.
        self.transposition_table = HashMap::new();
        proof {
            assert(self.wf());
        }
        let mut board_clone = *board;
        let turn = board.state.team_to_play;
        let moves = board.generate_moves(turn);
        if moves.len() == 0 {
            proof {
                if spec_has_legal_move(v) {
                    let (f, t) = choose|f: u64, t: u64| #[trigger] bv_legal_move(v, v.turn, f, t);
                    assert(false);
                }
            }
            return None;
        }
        proof {
            assert(bv_legal_move(v, v.turn, moves[0].origin as u64, moves[0].target as u64));
        }
        let mut best_move: Option<CompletedMove> = None;
        let mut best_score: i32 = -INF;
        let ghost mut jw: int = 0;
        let mut i: usize = 0;
        while i < moves.len()
            invariant
                i <= moves.len(),
                depth <= 255,
                self.wf(),
                board_clone.wf(),
                board_clone@ == v,
                v == board@,
                turn == v.turn,
                turn < 2,
                forall|j: int|
                    0 <= j < moves.len() ==> {
                        let m = #[trigger] moves[j];
                        &&& bv_legal_move(v, turn, m.origin as u64, m.target as u64)
                        &&& m == spec_play_record(v, m.origin as u64, m.target as u64)
                    },
                forall|f: u64, t: u64|
                    #[trigger] bv_legal_move(v, turn, f, t) ==> exists|j: int|
                        0 <= j < moves.len() && (#[trigger] moves[j]).origin == f
                            && moves[j].target == t,
                depth >= 1 ==> forall|j: int|
                    0 <= j < i ==> spec_move_value(
                        v,
                        depth as nat,
                        (#[trigger] moves[j]).origin as u64,
                        moves[j].target as u64,
                    ) <= best_score,
                i == 0 ==> best_move is None && best_score == -INF,
                i > 0 ==> 0 <= jw < i && best_move == Some(moves[jw]),
                i > 0 && depth >= 1 ==> best_score == spec_move_value(
                    v,
                    depth as nat,
                    moves[jw].origin as u64,
                    moves[jw].target as u64,
                ),
            decreases moves.len() - i,
        {
            let ghost best0 = best_score;
            let ghost bm0 = best_move;
            let m = moves[i];
            let rec_opt = board_clone.play_move(m.origin, m.target, true);
            let rec = match rec_opt {
                Some(rc) => rc,
                None => {
                    proof {
                        assert(false);
                    }
                    CompletedMove::clean(0, 1)
                },
            };
            let d = if depth == 0 {
                0
            } else {
                depth - 1
            };
            let below = self.minimax(&mut board_clone, d, get_opposite_team(turn), -INF, INF);
            proof {
                lemma_play_undo_roundtrip(v, m.origin as u64, m.target as u64);
                assert(spec_opposite(turn) == bv_play(v, m.origin as u64, m.target as u64).turn);
                lemma_game_value_bound(
                    bv_play(v, m.origin as u64, m.target as u64),
                    d as nat,
                );
            }
            board_clone.undo_move(rec);
            let s = -below;
            proof {
                assert(below == spec_game_value(
                    bv_play(v, m.origin as u64, m.target as u64),
                    d as nat,
                ));
                if depth >= 1 {
                    assert(s == spec_move_value(
                        v,
                        depth as nat,
                        m.origin as u64,
                        m.target as u64,
                    ));
                }
            }
            if best_move.is_none() || s > best_score {
                best_score = s;
                best_move = Some(m);
                proof {
                    jw = i as int;
                }
            }
            i = i + 1;
        }
        proof {
            let j = jw;
            assert(bv_legal_move(
                v,
                v.turn,
                best_move->Some_0.origin as u64,
                best_move->Some_0.target as u64,
            ));
            if depth >= 1 {
                // The kept move attains the game value: every move's value is
                // bounded by the kept score, and the kept score is one of them.
                lemma_best_upto_shape(v, depth as nat, 4096);
                assert(spec_game_value(v, depth as nat) == spec_best_upto(v, depth as nat, 4096));
                lemma_best_upto_ge(
                    v,
                    depth as nat,
                    4096,
                    moves[j].origin as u64,
                    moves[j].target as u64,
                );
                if spec_best_upto(v, depth as nat, 4096) == -(INF as int) {
                    lemma_game_value_bound(v, depth as nat);
                    assert(false);
                } else {
                    let (f2, t2) = choose|f2: u64, t2: u64|
                        f2 < 64 && t2 < 64 && #[trigger] bv_legal_move(v, v.turn, f2, t2) && f2
                            * 64 + t2 < 4096 && spec_best_upto(v, depth as nat, 4096)
                            == -spec_game_value(bv_play(v, f2, t2), (depth - 1) as nat);
                    let k = choose|k: int|
                        0 <= k < moves.len() && (#[trigger] moves[k]).origin == f2
                            && moves[k].target == t2;
                    assert(spec_move_value(v, depth as nat, f2, t2) <= best_score);
                    assert(spec_best_upto(v, depth as nat, 4096) <= best_score);
                }
                assert(best_score == spec_game_value(v, depth as nat));
            }
        }
        best_move
    }
}

} // verus!
