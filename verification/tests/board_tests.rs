//! Position store, move generation and make/unmake behaviour of the
//! bitboard engine.

use chess_engine::board::board::ChessBoard;
use chess_engine::board::hybrid::HybridChessBoard;
use chess_engine::board::{CompletedMove, GamePiece, Pieces, Teams};
use chess_engine::game::fen::new_board;
use chess_engine::game::Vector;
use chess_engine::hash::ZobristHash;

const START: &str = "rnbqkbnr/pppppppp/8/8/8/8/PPPPPPPP/RNBQKBNR w KQkq - 0 1";

fn board(fen: &str) -> ChessBoard {
    new_board(fen).expect("position should parse")
}

#[test]
fn standard_opening_has_twenty_moves() {
    let b = board(START);
    let moves = b.generate_moves(Teams::WHITE);
    assert_eq!(moves.len(), 20);
    let mut pawn_moves = 0;
    let mut knight_moves = 0;
    for m in &moves {
        let mbi = (m.origin as usize / 8) * 16 + (m.origin as usize % 8);
        match b.mailbox.get_piece_at(mbi) {
            Some(GamePiece::Pawn(_)) => pawn_moves += 1,
            Some(GamePiece::Knight(_)) => knight_moves += 1,
            _ => panic!("only pawns and knights can move at the start"),
        }
    }
    assert_eq!(pawn_moves, 16);
    assert_eq!(knight_moves, 4);
}

#[test]
fn occupancy_stays_disjoint() {
    let mut b = board(START);
    assert_eq!(b.bits.get_team_pieces(0).0 & b.bits.get_team_pieces(1).0, 0);
    let rec = b.play_move(12, 28, true).expect("e2-e4 plays"); // e2 -> e4
    assert_eq!(b.bits.get_team_pieces(0).0 & b.bits.get_team_pieces(1).0, 0);
    b.undo_move(rec);
    assert_eq!(b.bits.get_team_pieces(0).0 & b.bits.get_team_pieces(1).0, 0);
}

#[test]
fn play_then_undo_restores_position() {
    let original = board(START);
    let mut b = original;
    let rec = b.play_move(12, 28, true).expect("e2-e4 plays");
    assert_ne!(b.state.team_to_play, original.state.team_to_play);
    b.undo_move(rec);
    assert_eq!(b, original);
}

#[test]
fn play_then_undo_restores_zobrist() {
    let z = ZobristHash::new();
    let original = board(START);
    let before = z.hash(&original);
    let mut b = original;
    let rec = b.play_move(6, 21, true).expect("g1-f3 plays"); // Ng1-f3
    assert_ne!(z.hash(&b), before);
    b.undo_move(rec);
    assert_eq!(z.hash(&b), before);
}

#[test]
fn zobrist_equal_for_equal_positions() {
    let z = ZobristHash::new();
    let a = board(START);
    let b = board(START);
    assert_eq!(z.hash(&a), z.hash(&b));
    let c = board("rnbqkbnr/pppppppp/8/8/8/8/PPPPPPPP/RNBQKBNR b KQkq - 0 1");
    assert_ne!(z.hash(&a), z.hash(&c));
}

#[test]
fn en_passant_capture_works() {
    // White pawn e5 may capture the f5 pawn en passant onto f6.
    let mut b = board("rnbqkbnr/ppp1p1pp/8/3pPp2/8/8/PPPP1PPP/RNBQKBNR w KQkq f6 0 3");
    let moves = b.generate_moves(Teams::WHITE);
    let e5 = 36u8;
    let f6 = 45u8;
    let ep = moves
        .iter()
        .find(|m| m.origin == e5 && m.target == f6)
        .expect("e5xf6 en passant must be generated");
    assert!(ep.is_en_passant());
    assert!(ep.is_capture());
    assert_eq!(ep.get_capture(), Pieces::PAWN);
    let rec = b.play_move(e5, f6, true).expect("e5xf6 plays");
    assert!(rec.is_en_passant());
    // The black pawn on f5 is gone, the white pawn stands on f6.
    let f5_mb = (37usize / 8) * 16 + (37usize % 8);
    assert_eq!(*b.mailbox.get_piece_at(f5_mb), None);
    let f6_mb = (45usize / 8) * 16 + (45usize % 8);
    assert_eq!(*b.mailbox.get_piece_at(f6_mb), Some(GamePiece::Pawn(Teams::WHITE)));
    assert_eq!(b.state.en_passant_square, None);
}

#[test]
fn en_passant_undo_restores_position() {
    let original = board("rnbqkbnr/ppp1p1pp/8/3pPp2/8/8/PPPP1PPP/RNBQKBNR w KQkq f6 0 3");
    let mut b = original;
    let rec = b.play_move(36, 45, true).expect("e5xf6 plays");
    b.undo_move(rec);
    assert_eq!(b, original);
}

#[test]
fn castling_blocked_by_attack() {
    // The black rook on g2 attacks g1, so White may not castle kingside.
    let b = board("r3k2r/8/8/8/8/8/6r1/4K2R w Kk - 0 1");
    let moves = b.generate_moves(Teams::WHITE);
    assert!(moves.iter().all(|m| !(m.origin == 4 && m.target == 6)));
    assert!(moves.iter().all(|m| !m.is_castling()));
}

#[test]
fn castling_works_when_clear() {
    let original = board("r3k2r/8/8/8/8/8/8/R3K2R w KQkq - 0 1");
    let mut b = original;
    let moves = b.generate_moves(Teams::WHITE);
    let oo = moves
        .iter()
        .find(|m| m.origin == 4 && m.target == 6)
        .expect("White O-O must be generated");
    assert!(oo.is_castling());
    let rec = b.play_move(4, 6, true).expect("O-O plays");
    // King g1, rook f1.
    let g1 = (6usize / 8) * 16 + (6usize % 8);
    let f1 = (5usize / 8) * 16 + (5usize % 8);
    assert_eq!(*b.mailbox.get_piece_at(g1), Some(GamePiece::King(Teams::WHITE)));
    assert_eq!(*b.mailbox.get_piece_at(f1), Some(GamePiece::Rook(Teams::WHITE)));
    b.undo_move(rec);
    assert_eq!(b, original);
}

#[test]
fn promotion_appears_and_promotes_to_queen() {
    let mut b = board("8/P7/8/8/8/8/8/4k2K w - - 0 1");
    let moves = b.generate_moves(Teams::WHITE);
    let a7 = 48u8;
    let a8 = 56u8;
    let promo = moves
        .iter()
        .find(|m| m.origin == a7 && m.target == a8)
        .expect("a7-a8 must be generated");
    assert!(promo.is_promotion());
    let rec = b.play_move(a7, a8, true).expect("a7-a8 plays");
    assert!(rec.is_promotion());
    let a8_mb = (56usize / 8) * 16 + (56usize % 8);
    assert_eq!(*b.mailbox.get_piece_at(a8_mb), Some(GamePiece::Queen(Teams::WHITE)));
}

#[test]
fn promotion_undo_restores_pawn() {
    let original = board("8/P7/8/8/8/8/8/4k2K w - - 0 1");
    let mut b = original;
    let rec = b.play_move(48, 56, true).expect("a7-a8 plays");
    b.undo_move(rec);
    assert_eq!(b, original);
}

#[test]
fn checkmate_position_has_no_replies() {
    // After Re8+ the black king has no legal reply.
    let mut b = board("6k1/5ppp/8/8/8/8/5PPP/4R1K1 w - - 0 1");
    let rec = b.play_move(4, 60, true); // Re1-e8
    assert!(rec.is_some());
    assert!(b.is_in_check(Teams::BLACK));
    assert_eq!(b.generate_moves(Teams::BLACK).len(), 0);
}

#[test]
fn move_record_flags_round_trip() {
    let mut m = CompletedMove::clean(3, 9);
    assert!(!m.is_promotion());
    m.set_promotion();
    m.set_castling();
    m.set_en_passant();
    m.set_check();
    m.set_checkmate();
    m.set_stalemate();
    assert!(m.is_promotion());
    assert!(m.is_castling());
    assert!(m.is_en_passant());
    assert!(m.is_check());
    assert!(m.is_checkmate());
    assert!(m.is_stalemate());
    assert!(!m.is_capture());
    m.set_capture(Pieces::ROOK);
    assert!(m.is_capture());
    assert_eq!(m.get_capture(), Pieces::ROOK);
    assert!(m.is_valid());
}

#[test]
fn malformed_positions_are_rejected() {
    assert!(new_board("").is_none());
    assert!(new_board("rnbqkbnr/pppppppp/8/8/8/8/PPPPPPPP/RNBQKBNR").is_none());
    assert!(new_board("rnbqkbnr/pppppppp/8/8/8/8/PPPPPPPP/RNBQKBNR x KQkq - 0 1").is_none());
    assert!(new_board("rnbqkbnr/pppppppp/9/8/8/8/PPPPPPPP/RNBQKBNR w KQkq - 0 1").is_none());
    assert!(new_board("rnbqkbnr/pppppppp/8/8/8/8/PPPPPPPP/RNBQKBNR w KQkq zz 0 1").is_none());
    // A '-' counts only as the whole castling field.
    assert!(new_board("8/8/8/8/8/8/8/8 w K-x - 0 1").is_none());
    assert!(new_board("8/8/8/8/8/8/8/8 w KQ- - 0 1").is_none());
    assert!(new_board("8/8/8/8/8/8/8/8 w - - 0 1").is_some());
}

#[test]
fn rejected_move_leaves_board_alone() {
    let original = board(START);
    let mut b = original;
    // No piece on e4 yet.
    assert!(b.play_move(28, 36, true).is_none());
    // Own piece on the target.
    assert!(b.play_move(4, 12, true).is_none());
    assert_eq!(b, original);
}

#[test]
fn evaluate_counts_material() {
    let b = board(START);
    assert_eq!(b.evaluate(Teams::WHITE), 0);
    assert_eq!(b.evaluate(Teams::BLACK), 0);
    // White is a queen up.
    let c = board("rnb1kbnr/pppppppp/8/8/8/8/PPPPPPPP/RNBQKBNR w KQkq - 0 1");
    assert_eq!(c.evaluate(Teams::WHITE), 900);
    assert_eq!(c.evaluate(Teams::BLACK), -900);
}

#[test]
fn mailbox_and_bitboards_agree() {
    let mut b = board("r3k2r/8/8/8/8/8/8/R3K2R w KQkq - 0 1");
    let rec = b.play_move(4, 6, true).expect("O-O plays");
    for side in 0..2usize {
        for kind in 0..6usize {
            let bb = b.bits.get_pieces(side, kind).0;
            for sq in 0..64usize {
                let mbi = (sq / 8) * 16 + (sq % 8);
                let set = (bb >> sq) & 1 == 1;
                let held = match *b.mailbox.get_piece_at(mbi) {
                    Some(p) => p.get_team() == side && p.get_piece() == kind,
                    None => false,
                };
                assert_eq!(set, held, "square {sq} side {side} kind {kind}");
            }
        }
    }
    b.undo_move(rec);
}

#[test]
fn stalemate_position_has_no_replies_and_no_check() {
    // Black to move: the king on h8 has no move, but is not in check.
    let b = board("7k/5Q2/6K1/8/8/8/8/8 b - - 0 1");
    assert_eq!(b.generate_moves(Teams::BLACK).len(), 0);
    assert!(!b.is_in_check(Teams::BLACK));
}

#[test]
fn rook_move_withdraws_castling_right() {
    let mut b = board("r3k2r/8/8/8/8/8/8/R3K2R w KQkq - 0 1");
    let rec = b.play_move(0, 8, true).expect("Ra1-a2 plays");
    // The queenside right is gone, the kingside right stays.
    assert!(!b.state.castling_rights.is_allowed(Teams::WHITE, 1));
    assert!(b.state.castling_rights.is_allowed(Teams::WHITE, 0));
    b.undo_move(rec);
    assert!(b.state.castling_rights.is_allowed(Teams::WHITE, 1));
}

#[test]
fn double_push_sets_en_passant_target() {
    let mut b = board(START);
    b.play_move(12, 28, true).expect("e2-e4 plays");
    assert_eq!(b.state.en_passant_square, Some(20)); // e3
    b.play_move(57, 42, true).expect("Nb8-c6 plays");
    assert_eq!(b.state.en_passant_square, None);
}

#[test]
fn attacks_of_a_lone_rook_and_king() {
    let b = board("8/8/8/8/8/8/8/R6K w - - 0 1");
    let att = b.attacks(Teams::WHITE).0;
    // The rook on a1 covers its file and rank; the king on h1 covers g1, g2, h2.
    for sq in [8u32, 16, 24, 32, 40, 48, 56, 1, 2, 3, 4, 5, 6, 14, 15] {
        assert_ne!(att & (1u64 << sq), 0, "square {sq} should be attacked");
    }
    // A square no piece reaches, and the pieces' own squares, are not attacked.
    for sq in [18u32, 27, 44, 0, 7] {
        assert_eq!(att & (1u64 << sq), 0, "square {sq} should not be attacked");
    }
}

#[test]
fn per_piece_moves_for_the_opening_knight() {
    let b = board(START);
    let targets = b.calculate_move_for_piece(Vector { x: 1, y: 0 }); // b1
    assert_eq!(targets.len(), 2);
    assert!(targets.iter().any(|v| (v.x, v.y) == (0, 2))); // a3
    assert!(targets.iter().any(|v| (v.x, v.y) == (2, 2))); // c3
    let empty = b.calculate_move_for_piece(Vector { x: 4, y: 3 }); // e4 is empty
    assert_eq!(empty.len(), 0);
}

#[test]
fn hybrid_board_parses_and_finds_pieces() {
    let h = HybridChessBoard::from_fen(START).expect("start position parses");
    assert_eq!(h.get_piece_at(Vector { x: 4, y: 0 }), Some(GamePiece::King(Teams::WHITE)));
    let loc = h.get_piece_location(Teams::BLACK, Pieces::QUEEN).expect("black queen exists");
    assert_eq!((loc.x, loc.y), (3, 7));
    assert!(HybridChessBoard::from_fen("nonsense").is_none());
    let empty = HybridChessBoard::new();
    assert_eq!(empty.get_piece_at(Vector { x: 0, y: 0 }), None);
}

#[test]
fn plain_relocation_ignores_state() {
    let mut b = board(START);
    let before_turn = b.state.team_to_play;
    b.move_piece(12, 28); // e2 -> e4 without bookkeeping
    assert_eq!(b.state.team_to_play, before_turn);
    let e4 = (28usize / 8) * 16 + (28usize % 8);
    assert_eq!(*b.mailbox.get_piece_at(e4), Some(GamePiece::Pawn(Teams::WHITE)));
}
