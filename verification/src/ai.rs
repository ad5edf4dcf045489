//! Search interface of the square-array engine.

use vstd::prelude::*;
use crate::game::engine::BoardLogic;
use crate::game::Move;
use crate::game::moves::spec_on_board;

pub mod hash;
pub mod negamax;

verus! {

/// A search over the square-array board: asked for a best move at a depth.
pub trait ChessAI: Sized {
    /// The best move found for the side to play: `None` exactly when it has
    /// no legal move. A returned move is one of the side's legal moves.
    fn get_best_move(&mut self, board: BoardLogic, depth: i32) -> (r: Option<Move>)
        ensures
            r is Some <==> crate::game::engine::spec_bl_has_move(board, board.state.team_to_play),
            r matches Some(m) ==> crate::game::engine::spec_bl_team_move(
                board,
                board.state.team_to_play,
                m,
            ) && spec_on_board(m.from.x as int, m.from.y as int) && spec_on_board(
                m.to.x as int,
                m.to.y as int,
            ),
    ;
}

} // verus!
