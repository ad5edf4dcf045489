//! Alpha-beta negamax over the square-array board, with move ordering by
//! capture value and a quiescence extension that follows captures only.

use vstd::prelude::*;
use std::collections::HashMap;
use crate::ai::ChessAI;
use crate::engine::minimax::{INF, MATE_VALUE};
use crate::game::engine::BoardLogic;
use crate::game::{Coordinates, Move, PieceType};
use crate::game::moves::spec_on_board;

verus! {

/// The ordering score of a move: captures above everything, ranked by the
/// victim's worth; then promotions; quiet moves last.
pub open spec fn spec_move_score(b: BoardLogic, mov: Move) -> int {
    if mov.capture {
        1000 + (if spec_on_board(mov.to.x as int, mov.to.y as int) {
            match b.spec_at(mov.to.x as int, mov.to.y as int) {
                Some(piece) => match piece.piece_type {
                    PieceType::Pawn => 1int,
                    PieceType::Knight => 3,
                    PieceType::Bishop => 3,
                    PieceType::Rook => 5,
                    PieceType::Queen => 9,
                    PieceType::King => 0,
                },
                None => 0,
            }
        } else {
            0
        })
    } else if mov.promotion {
        900
    } else {
        0
    }
}

/// The alpha-beta negamax search with quiescence leaves; the table field is
/// reserved for cached scores.
pub struct Negamax {
    transposition_table: HashMap<u64, (i32, i32)>,
}

impl Negamax {
    pub fn new() -> Negamax {
        Negamax { transposition_table: HashMap::new() }
    }

    /// Negamax with an alpha-beta window, recursing on cloned boards and
    /// falling to quiescence at depth zero; with no legal move the score is a
    /// mate score in check and zero otherwise. The result stays within the
    /// search bounds.
    fn negamax(&mut self, board: &BoardLogic, depth: i32, alpha: i32, beta: i32, color: i32) -> (r:
        i32)
        requires
            0 <= depth <= 255,
            -INF <= alpha < beta <= INF,
            color == 1 || color == -1,
        ensures
            -INF <= r <= INF,
            depth > 0 && !crate::game::engine::spec_bl_has_move(*board, board.state.team_to_play)
                ==> r == (if crate::game::engine::spec_bl_in_check(
                *board,
                board.state.team_to_play,
            ) {
                -(MATE_VALUE + depth)
            } else {
                0
            }),
        decreases depth,
    {
        if depth == 0 {
            return self.quiescence(board, alpha, beta, color);
        }
        let moves = board.get_all_moves_for_team(board.state.team_to_play);
        proof {
            lemma_moves_nonempty_iff_has_move(*board, board.state.team_to_play, moves@);
        }
        if moves.len() == 0 {
            return if board.is_team_in_check(board.state.team_to_play) {
                -(MATE_VALUE + depth)
            } else {
                0
            };
        }
        let ordered_moves = self.order_moves(board, moves);
        let mut max_eval: i32 = -INF;
        let mut alpha = alpha;
        let mut i: usize = 0;
        while i < ordered_moves.len()
            invariant
                i <= ordered_moves.len(),
                crate::game::engine::spec_bl_has_move(*board, board.state.team_to_play),
                0 < depth <= 255,
                -INF <= alpha < beta <= INF,
                color == 1 || color == -1,
                -INF <= max_eval <= INF,
                forall|j: int|
                    0 <= j < ordered_moves.len() ==> spec_on_board(
                        (#[trigger] ordered_moves[j]).from.x as int,
                        ordered_moves[j].from.y as int,
                    ) && spec_on_board(ordered_moves[j].to.x as int, ordered_moves[j].to.y as int),
            decreases ordered_moves.len() - i,
        {
            let mov = ordered_moves[i];
            let mut new_board = *board;
            new_board.play_move(mov.from.x, mov.from.y, mov.to.x, mov.to.y, false, false);
            let below = self.negamax(&new_board, depth - 1, -beta, -alpha, -color);
            let eval = if below == -INF {
                INF
            } else {
                -below
            };
            if eval > max_eval {
                max_eval = eval;
            }
            if eval > alpha {
                alpha = eval;
            }
            if alpha >= beta {
                return max_eval;
            }
            i = i + 1;
        }
        max_eval
    }

    /// Quiescence: stand pat on the material balance, then follow capture
    /// moves only, keeping the score clamped to the window. Whenever
    /// `alpha < beta`, the result lies in `[alpha, beta]`.
    fn quiescence(&self, board: &BoardLogic, alpha: i32, beta: i32, color: i32) -> (r: i32)
        requires
            -INF <= alpha < beta <= INF,
            color == 1 || color == -1,
        ensures
            alpha <= r <= beta,
    {
        self.quiescence_bounded(board, alpha, beta, color, 32)
    }

    /// Quiescence with a capture-chain bound; the bound never binds in real
    /// play, since each step removes a piece.
    fn quiescence_bounded(
        &self,
        board: &BoardLogic,
        alpha: i32,
        beta: i32,
        color: i32,
        fuel: u8,
    ) -> (r: i32)
        requires
            -INF <= alpha < beta <= INF,
            color == 1 || color == -1,
        ensures
            alpha <= r <= beta,
        decreases fuel,
    {
        let material = board.evaluate_position(board.state.team_to_play);
        proof {
            lemma_eval_bound(*board, board.state.team_to_play, 64);
        }
        let stand_pat = color * material;
        if stand_pat >= beta {
            return beta;
        }
        let mut a = alpha;
        if a < stand_pat {
            a = stand_pat;
        }
        if fuel == 0 {
            return a;
        }
        let captures = board.get_all_capture_moves_for_team(board.state.team_to_play);
        let mut i: usize = 0;
        while i < captures.len()
            invariant
                i <= captures.len(),
                -INF <= alpha <= a < beta <= INF,
                color == 1 || color == -1,
                fuel >= 1,
                forall|j: int|
                    0 <= j < captures.len() ==> spec_on_board(
                        (#[trigger] captures[j]).from.x as int,
                        captures[j].from.y as int,
                    ) && spec_on_board(captures[j].to.x as int, captures[j].to.y as int),
            decreases captures.len() - i,
        {
            let mov = captures[i];
            let mut new_board = *board;
            new_board.play_move(mov.from.x, mov.from.y, mov.to.x, mov.to.y, false, false);
            let below = self.quiescence_bounded(&new_board, -beta, -a, -color, fuel - 1);
            let eval = -below;
            if eval >= beta {
                return beta;
            }
            if eval > a {
                a = eval;
            }
            i = i + 1;
        }
        a
    }

    /// The moves rearranged so that higher-scored moves come first: the
    /// result has the input's length, every entry is one of the inputs, and
    /// the ordering scores never increase along the list.
    fn order_moves(&self, board: &BoardLogic, moves: Vec<Move>) -> (r: Vec<Move>)
        ensures
            r.len() == moves.len(),
            forall|i: int| 0 <= i < r.len() ==> moves@.contains(#[trigger] r[i]),
            forall|i: int, j: int|
                0 <= i < j < r.len() ==> spec_move_score(*board, #[trigger] r[j])
                    <= spec_move_score(*board, #[trigger] r[i]),
    {
        let mut work: Vec<Move> = Vec::new();
        let mut c: usize = 0;
        while c < moves.len()
            invariant
                c <= moves.len(),
                work.len() == c,
                forall|i: int| 0 <= i < c ==> #[trigger] work[i] == moves[i],
            decreases moves.len() - c,
        {
            work.push(moves[c]);
            c = c + 1;
        }
        let mut out: Vec<Move> = Vec::new();
        while work.len() > 0
            invariant
                out.len() + work.len() == moves.len(),
                forall|i: int| 0 <= i < out.len() ==> moves@.contains(#[trigger] out[i]),
                forall|i: int| 0 <= i < work.len() ==> moves@.contains(#[trigger] work[i]),
                forall|i: int, j: int|
                    0 <= i < j < out.len() ==> spec_move_score(*board, #[trigger] out[j])
                        <= spec_move_score(*board, #[trigger] out[i]),
                out.len() > 0 ==> forall|i: int|
                    0 <= i < work.len() ==> spec_move_score(*board, #[trigger] work[i])
                        <= spec_move_score(*board, out[out.len() - 1]),
            decreases work.len(),
        {
            let mut best: usize = 0;
            let mut m: usize = 1;
            while m < work.len()
                invariant
                    work.len() > 0,
                    best < m,
                    1 <= m <= work.len(),
                    forall|i: int|
                        0 <= i < m && i < work.len() ==> spec_move_score(*board, #[trigger] work[i])
                            <= spec_move_score(*board, work[best as int]),
                decreases work.len() - m,
            {
                if self.score_move(board, &work[m]) > self.score_move(board, &work[best]) {
                    best = m;
                }
                m = m + 1;
            }
            let ghost work0 = work@;
            let ghost out0 = out@;
            let picked = work.remove(best);
            out.push(picked);
            proof {
                assert(picked == work0[best as int]);
                assert(moves@.contains(picked));
                assert forall|i: int| 0 <= i < work.len() implies moves@.contains(
                    #[trigger] work[i],
                ) && spec_move_score(*board, work[i]) <= spec_move_score(*board, picked) by {
                    if i < best {
                        assert(work@[i] == work0[i]);
                    } else {
                        assert(work@[i] == work0[i + 1]);
                    }
                }
                assert(out@[out@.len() - 1] == picked);
                assert forall|i: int, j: int| 0 <= i < j < out.len() implies spec_move_score(
                    *board,
                    #[trigger] out[j],
                ) <= spec_move_score(*board, #[trigger] out[i]) by {
                    if j == out@.len() - 1 {
                        if out0.len() > 0 {
                            assert(spec_move_score(*board, picked) <= spec_move_score(
                                *board,
                                out0[out0.len() - 1],
                            ));
                            assert(spec_move_score(*board, out0[out0.len() - 1])
                                <= spec_move_score(*board, out0[i]));
                        }
                    } else {
                        assert(out@[i] == out0[i] && out@[j] == out0[j]);
                    }
                }
            }
        }
        out
    }

    /// The ordering score of a move on this board.
    fn score_move(&self, board: &BoardLogic, mov: &Move) -> (r: i32)
        ensures
            r == spec_move_score(*board, *mov),
            0 <= r <= 1009,
    {
        if mov.capture {
            let victim: i32 = if mov.to.x >= 1 && mov.to.x <= 8 && mov.to.y >= 1 && mov.to.y <= 8 {
                match board.get_piece_at(mov.to.x, mov.to.y) {
                    None => 0,
                    Some(piece) => match piece.piece_type {
                        PieceType::Pawn => 1,
                        PieceType::Knight => 3,
                        PieceType::Bishop => 3,
                        PieceType::Rook => 5,
                        PieceType::Queen => 9,
                        PieceType::King => 0,
                    },
                }
            } else {
                0
            };
            1000 + victim
        } else if mov.promotion {
            900
        } else {
            0
        }
    }
}

/// The square-array material balance stays within the sum of all cell values.
pub proof fn lemma_eval_bound(b: BoardLogic, team: crate::game::Team, n: int)
    requires
        0 <= n <= 64,
    ensures
        -1000 * n <= b.spec_eval_upto(team, n) <= 1000 * n,
    decreases n,
{
    if n > 0 {
        lemma_eval_bound(b, team, n - 1);
    }
}

/// A team's move list is nonempty exactly when the side has a kept move.
proof fn lemma_moves_nonempty_iff_has_move(b: BoardLogic, team: crate::game::Team, moves: Seq<Move>)
    requires
        forall|i: int|
            0 <= i < moves.len() ==> crate::game::engine::spec_bl_team_move(
                b,
                team,
                #[trigger] moves[i],
            ),
        forall|x: i8, y: i8, cx: i8, cy: i8|
            crate::game::moves::spec_on_board(x as int, y as int) && b.spec_at(
                x as int,
                y as int,
            ) is Some && b.spec_at(x as int, y as int)->Some_0.team == team
                && #[trigger] crate::game::engine::spec_bl_kept_move(
                b,
                b.spec_at(x as int, y as int)->Some_0,
                x,
                y,
                Coordinates { x: cx, y: cy },
                false,
            ) ==> moves.contains(crate::game::engine::spec_bl_record(b, x, y, cx, cy)),
    ensures
        moves.len() != 0 <==> crate::game::engine::spec_bl_has_move(b, team),
{
    if moves.len() != 0 {
        assert(crate::game::engine::spec_bl_team_move(b, team, moves[0]));
        let (x, y) = choose|x: i8, y: i8|
            #![trigger crate::game::engine::spec_bl_hyp_move(b, b.spec_at(x as int, y as int)->Some_0, x, y, moves[0], false)]
            crate::game::moves::spec_on_board(x as int, y as int) && b.spec_at(
                x as int,
                y as int,
            ) is Some && b.spec_at(x as int, y as int)->Some_0.team == team
                && crate::game::engine::spec_bl_hyp_move(
                b,
                b.spec_at(x as int, y as int)->Some_0,
                x,
                y,
                moves[0],
                false,
            );
        let c = choose|c: Coordinates|
            #[trigger] crate::game::engine::spec_bl_kept_move(
                b,
                b.spec_at(x as int, y as int)->Some_0,
                x,
                y,
                c,
                false,
            ) && moves[0] == crate::game::engine::spec_bl_record(b, x, y, c.x, c.y);
        assert(crate::game::engine::spec_bl_has_move(b, team));
    } else {
        if crate::game::engine::spec_bl_has_move(b, team) {
            let (x, y, c) = choose|x: i8, y: i8, c: Coordinates|
                #![trigger crate::game::engine::spec_bl_kept_move(b, b.spec_at(x as int, y as int)->Some_0, x, y, c, false)]
                crate::game::moves::spec_on_board(x as int, y as int) && b.spec_at(
                    x as int,
                    y as int,
                ) is Some && b.spec_at(x as int, y as int)->Some_0.team == team
                    && crate::game::engine::spec_bl_kept_move(
                    b,
                    b.spec_at(x as int, y as int)->Some_0,
                    x,
                    y,
                    c,
                    false,
                );
            assert(moves.contains(crate::game::engine::spec_bl_record(b, x, y, c.x, c.y)));
            assert(false);
        }
    }
}

impl ChessAI for Negamax {
    fn get_best_move(&mut self, board: BoardLogic, depth: i32) -> (r: Option<Move>) {
        let d = if depth < 1 {
            1
        } else if depth > 255 {
            255
        } else {
            depth
        };
        let moves = board.get_all_moves_for_team(board.state.team_to_play);
        proof {
            lemma_moves_nonempty_iff_has_move(board, board.state.team_to_play, moves@);
        }
        let ordered_moves = self.order_moves(&board, moves);
        let mut best_move: Option<Move> = None;
        let mut max_eval: i32 = -INF;
        let mut i: usize = 0;
        while i < ordered_moves.len()
            invariant
                i <= ordered_moves.len(),
                1 <= d <= 255,
                forall|j: int|
                    0 <= j < ordered_moves.len() ==> crate::game::engine::spec_bl_team_move(
                        board,
                        board.state.team_to_play,
                        #[trigger] ordered_moves[j],
                    ) && spec_on_board(
                        ordered_moves[j].from.x as int,
                        ordered_moves[j].from.y as int,
                    ) && spec_on_board(ordered_moves[j].to.x as int, ordered_moves[j].to.y as int),
                i == 0 ==> best_move is None,
                i > 0 ==> best_move is Some,
                best_move matches Some(m) ==> crate::game::engine::spec_bl_team_move(
                    board,
                    board.state.team_to_play,
                    m,
                ) && spec_on_board(m.from.x as int, m.from.y as int) && spec_on_board(
                    m.to.x as int,
                    m.to.y as int,
                ),
            decreases ordered_moves.len() - i,
        {
            let mov = ordered_moves[i];
            let mut new_board = board;
            new_board.play_move(mov.from.x, mov.from.y, mov.to.x, mov.to.y, false, true);
            let below = self.negamax(&new_board, d - 1, -INF, INF, -1);
            let eval = if below == -INF {
                INF
            } else {
                -below
            };
            if best_move.is_none() || eval > max_eval {
                max_eval = eval;
                best_move = Some(mov);
            }
            i = i + 1;
        }
        best_move
    }
}

} // verus!
