//! Search behaviour: perft counts, window invariance, and the engines'
//! best-move picks.

use chess_engine::ai::hash::ZobristTable;
use chess_engine::ai::negamax::Negamax;
use chess_engine::ai::ChessAI;
use chess_engine::board::Teams;
use chess_engine::engine::minimax::{negamax_alpha_beta, perft, plain_negamax, MinimaxEngine, INF};
use chess_engine::engine::ChessEngine;
use chess_engine::game::engine::BoardLogic;
use chess_engine::game::fen::new_board;
use chess_engine::game::{GameEnding, Piece, PieceType};

const START: &str = "rnbqkbnr/pppppppp/8/8/8/8/PPPPPPPP/RNBQKBNR w KQkq - 0 1";

#[test]
fn perft_one_and_two() {
    let mut b = new_board(START).unwrap();
    assert_eq!(perft(&mut b, 1), 20);
    assert_eq!(perft(&mut b, 2), 400);
}

#[test]
fn perft_three() {
    let mut b = new_board(START).unwrap();
    assert_eq!(perft(&mut b, 3), 8902);
}

#[test]
fn alpha_beta_equals_plain_negamax() {
    for fen in [
        START,
        "rnbqkbnr/pppp1ppp/8/4p3/2B1P3/5Q2/PPPP1PPP/RNBQK1NR b KQkq - 0 2",
        "r3k2r/8/8/8/8/8/6r1/4K2R w Kk - 0 1",
    ] {
        let mut a = new_board(fen).unwrap();
        let mut b = new_board(fen).unwrap();
        let plain = plain_negamax(&mut a, 2);
        let pruned = negamax_alpha_beta(&mut b, 2, -INF, INF);
        assert_eq!(plain, pruned);
    }
}

#[test]
fn scholars_mate_threat_is_answered() {
    // After f7-f6 White mates with Qxf7; the search must not pick it.
    let fen = "rnbqkbnr/pppp1ppp/8/4p3/2B1P3/5Q2/PPPP1PPP/RNBQK1NR b KQkq - 0 2";
    let board = new_board(fen).unwrap();
    let mut engine = MinimaxEngine::new();
    let best = engine.get_best_move(&board, 2).expect("Black has moves");
    let f7 = 53u8;
    let f6 = 45u8;
    assert!(!(best.origin == f7 && best.target == f6), "f7-f6 loses to mate");
}

#[test]
fn search_reports_checkmate_after_rook_check() {
    let fen = "6k1/5ppp/8/8/8/8/5PPP/4R1K1 w - - 0 1";
    let mut board = BoardLogic::from_fen(fen).unwrap();
    let mv = board.play_move(5, 1, 5, 8, true, true).expect("Re1-e8 is legal");
    assert!(mv.check);
    assert_eq!(mv.ending, Some(GameEnding::Checkmate));
}

#[test]
fn engine_finds_a_move_in_the_opening() {
    let board = new_board(START).unwrap();
    let mut engine = MinimaxEngine::new();
    let best = engine.get_best_move(&board, 1).expect("White has moves");
    assert!(best.origin < 64 && best.target < 64);
}

#[test]
fn engine_returns_none_when_mated() {
    // Black to move, already checkmated in the corner.
    let fen = "4R1k1/5ppp/8/8/8/8/5PPP/6K1 b - - 0 1";
    let board = new_board(fen).unwrap();
    let mut engine = MinimaxEngine::new();
    assert!(engine.get_best_move(&board, 2).is_none());
}

#[test]
fn array_engine_counts_twenty_opening_moves() {
    let board = BoardLogic::from_fen(START).unwrap();
    let moves = board.get_all_moves_for_team(chess_engine::game::Team::White);
    assert_eq!(moves.len(), 20);
}

#[test]
fn array_engine_search_finds_a_move() {
    let board = BoardLogic::from_fen(START).unwrap();
    let mut engine = Negamax::new();
    let best = engine.get_best_move(board, 1).expect("White has moves");
    assert!(best.from.x >= 1 && best.from.x <= 8);
    assert!(best.to.y >= 1 && best.to.y <= 8);
}

#[test]
fn perft_four() {
    let mut b = new_board(START).unwrap();
    assert_eq!(perft(&mut b, 4), 197281);
}

#[test]
fn array_engine_plays_en_passant() {
    let fen = "rnbqkbnr/ppp1p1pp/8/3pPp2/8/8/PPPP1PPP/RNBQKBNR w KQkq f6 0 3";
    let mut b = BoardLogic::from_fen(fen).unwrap();
    let mv = b.play_move(5, 5, 6, 6, true, false).expect("e5xf6 is legal");
    assert!(mv.en_passant);
    assert!(mv.capture);
    assert!(b.get_piece_at(6, 5).is_none(), "the passed pawn is removed");
}

#[test]
fn array_engine_zobrist_is_deterministic() {
    let table = ZobristTable::new();
    let a = BoardLogic::from_fen(START).unwrap();
    let b = BoardLogic::from_fen(START).unwrap();
    assert_eq!(a.zobrist_hash(&table), b.zobrist_hash(&table));
    let c = BoardLogic::from_fen("rnbqkbnr/pppppppp/8/8/8/8/PPPPPPPP/RNBQKBNR b KQkq - 0 1")
        .unwrap();
    assert_ne!(a.zobrist_hash(&table), c.zobrist_hash(&table));
}

#[test]
fn array_engine_evaluates_material() {
    let b = BoardLogic::from_fen(START).unwrap();
    assert_eq!(b.evaluate_position(chess_engine::game::Team::White), 0);
    let c = BoardLogic::from_fen("rnb1kbnr/pppppppp/8/8/8/8/PPPPPPPP/RNBQKBNR w KQkq - 0 1")
        .unwrap();
    assert_eq!(c.evaluate_position(chess_engine::game::Team::White), 9);
    assert_eq!(c.evaluate_position(chess_engine::game::Team::Black), -9);
}

#[test]
fn array_engine_promotes_to_queen() {
    let mut b = BoardLogic::from_fen("8/P7/8/8/8/8/8/4k2K w - - 0 1").unwrap();
    let mv = b.play_move(1, 7, 1, 8, true, false).expect("a7-a8 is legal");
    assert!(mv.promotion);
    assert_eq!(
        b.get_piece_at(1, 8),
        Some(Piece { piece_type: PieceType::Queen, team: chess_engine::game::Team::White })
    );
}

#[test]
fn array_engine_refuses_illegal_requests() {
    let mut b = BoardLogic::from_fen(START).unwrap();
    let before = b.get_piece_at(5, 2);
    // A pawn cannot jump three ranks; nothing may change.
    assert!(b.play_move(5, 2, 5, 5, true, false).is_none());
    assert_eq!(b.get_piece_at(5, 2), before);
    assert!(b.get_piece_at(5, 5).is_none());
    // The legal double push goes through.
    assert!(b.play_move(5, 2, 5, 4, true, false).is_some());
    assert!(b.get_piece_at(5, 4).is_some());
}

#[test]
fn array_engine_reports_stalemate() {
    // White queen b6 to c7 leaves the black king on a8 unchecked and
    // without a move: the played record reports the stalemate.
    let mut b = BoardLogic::from_fen("k7/8/1Q5K/8/8/8/8/8 w - - 0 1").unwrap();
    let mv = b.play_move(2, 6, 3, 7, true, true).expect("Qb6-c7 is legal");
    assert!(!mv.check);
    assert_eq!(mv.ending, Some(GameEnding::Stalemate));
    assert_eq!(b.get_all_moves_for_team(chess_engine::game::Team::Black).len(), 0);
}
