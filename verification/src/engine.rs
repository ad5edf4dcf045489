//! The engine facade: piece values and the search interface.

use vstd::prelude::*;
use crate::board::{CompletedMove, Piece};
use crate::board::board::ChessBoard;

pub mod minimax;

verus! {

/// The material value of a piece kind.
pub open spec fn spec_piece_value(piece: Piece) -> int {
    if piece == 0 {
        100int
    } else if piece == 1 {
        330int
    } else if piece == 2 {
        320int
    } else if piece == 3 {
        500int
    } else if piece == 4 {
        900int
    } else {
        10000int
    }
}

pub fn get_piece_value(piece: Piece) -> (r: i32)
    requires
        piece < 6,
    ensures
        r == spec_piece_value(piece),
        100 <= r <= 10000,
{
    if piece == 0 {
        100
    } else if piece == 1 {
        330
    } else if piece == 2 {
        320
    } else if piece == 3 {
        500
    } else if piece == 4 {
        900
    } else {
        10000
    }
}

/// A search engine: asked for a best move at a fixed depth.
pub trait ChessEngine: Sized {
    fn new() -> Self;

    /// The best move for the side to play: `None` exactly when it has no
    /// legal move; otherwise a legal move whose value, at any depth of one or
    /// more, is the game value of the position.
    fn get_best_move(&mut self, board: &ChessBoard, depth: u8) -> (r: Option<CompletedMove>)
        requires
            board.wf(),
            depth <= 255,
        ensures
            r is Some <==> crate::engine::minimax::spec_has_legal_move(board@),
            r matches Some(m) ==> {
                &&& crate::board::board::bv_legal_move(
                    board@,
                    board@.turn,
                    m.origin as u64,
                    m.target as u64,
                )
                &&& (depth >= 1 ==> crate::engine::minimax::spec_move_value(
                    board@,
                    depth as nat,
                    m.origin as u64,
                    m.target as u64,
                ) == crate::engine::minimax::spec_game_value(board@, depth as nat))
            },
    ;
}

} // verus!
