//! Geometry, masks and small helpers.

use chess_engine::bits::pop_count;
use chess_engine::board::state::{CastlingRights, CastlingSides};
use chess_engine::board::{BitBoard, BitPosition, GamePiece, MailBox, Pieces, Teams,
    get_opposite_team};
use chess_engine::engine::get_piece_value;
use chess_engine::game::square::square_to_vector;
use chess_engine::game::{Coordinates, Move, Piece, PieceType, Team, Vector,
    get_en_passant_rank_for_team, get_pawn_rank_for_team};
use chess_engine::math::kings::mask_king_moves;
use chess_engine::math::knights::mask_knight_moves;
use chess_engine::math::sliding::{properly_mask_bishop_moves, properly_mask_rook_moves};
use chess_engine::util::{nameMove, parse_square_name};

#[test]
fn square_names_parse() {
    let v = square_to_vector("e3").expect("e3 is a square");
    assert_eq!(v, Vector { x: 4, y: 2 });
    let a1 = square_to_vector("a1").unwrap();
    assert_eq!((a1.x, a1.y), (0, 0));
    let h8 = square_to_vector("h8").unwrap();
    assert_eq!((h8.x, h8.y), (7, 7));
    assert!(square_to_vector("i9").is_none());
    assert!(square_to_vector("e").is_none());
    assert!(square_to_vector("e33").is_none());
}

#[test]
fn vector_round_trips() {
    let v = Vector::from_bit_position_index(37);
    assert_eq!((v.x, v.y), (5, 4));
    assert_eq!(v.bit_position_index(), 37);
    assert_eq!(v.mail_box_index(), 4 * 16 + 5);
}

#[test]
fn knight_masks_by_position() {
    // A corner knight reaches two squares, a central knight eight.
    assert_eq!(mask_knight_moves(1u64 << 0).count_ones(), 2);
    assert_eq!(mask_knight_moves(1u64 << 27).count_ones(), 8);
}

#[test]
fn king_masks_by_position() {
    assert_eq!(mask_king_moves(1u64 << 0, None).count_ones(), 3);
    assert_eq!(mask_king_moves(1u64 << 27, None).count_ones(), 8);
    // Threats cut king squares away.
    let threats = BitBoard(0xFFFFFFFFFFFFFFFF);
    assert_eq!(mask_king_moves(1u64 << 27, Some(&threats)).count_ones(), 0);
}

#[test]
fn sliding_masks_respect_blockers() {
    // A rook on a1 with a blocker on a2 sees the first rank and a2 only.
    let blockers = BitBoard(1u64 << 8);
    let rook = properly_mask_rook_moves(1u64 << 0, &blockers);
    assert_eq!(rook.count_ones(), 8);
    assert_ne!(rook.0 & (1u64 << 8), 0);
    assert_eq!(rook.0 & (1u64 << 16), 0);
    // A bishop on d4 on an empty board sees thirteen squares.
    let bishop = properly_mask_bishop_moves(1u64 << 27, &BitBoard(0));
    assert_eq!(bishop.count_ones(), 13);
}

#[test]
fn pop_count_counts() {
    assert_eq!(pop_count(0), 0);
    assert_eq!(pop_count(u64::MAX), 64);
    assert_eq!(pop_count(0b1011), 3);
}

#[test]
fn castling_rights_bits() {
    let mut rights = CastlingRights::none();
    assert!(!rights.is_allowed(Teams::WHITE, CastlingSides::KINGSIDE));
    rights.allow(Teams::WHITE, CastlingSides::KINGSIDE);
    rights.allow(Teams::BLACK, CastlingSides::QUEENSIDE);
    assert!(rights.is_allowed(Teams::WHITE, CastlingSides::KINGSIDE));
    assert!(rights.is_allowed(Teams::BLACK, CastlingSides::QUEENSIDE));
    rights.disallow_all(Teams::WHITE);
    assert!(!rights.is_allowed(Teams::WHITE, CastlingSides::KINGSIDE));
    assert!(rights.is_allowed(Teams::BLACK, CastlingSides::QUEENSIDE));
    assert_eq!(CastlingRights::all().bits(), 0b1111);
}

#[test]
fn team_and_rank_helpers() {
    assert_eq!(get_opposite_team(Teams::WHITE), Teams::BLACK);
    assert_eq!(get_opposite_team(Teams::BLACK), Teams::WHITE);
    assert_eq!(get_pawn_rank_for_team(0), 1);
    assert_eq!(get_pawn_rank_for_team(1), 6);
    assert_eq!(get_en_passant_rank_for_team(0), 3);
    assert_eq!(get_en_passant_rank_for_team(1), 4);
}

#[test]
fn piece_values_are_fixed() {
    assert_eq!(get_piece_value(Pieces::PAWN), 100);
    assert_eq!(get_piece_value(Pieces::BISHOP), 330);
    assert_eq!(get_piece_value(Pieces::KNIGHT), 320);
    assert_eq!(get_piece_value(Pieces::ROOK), 500);
    assert_eq!(get_piece_value(Pieces::QUEEN), 900);
    assert_eq!(get_piece_value(Pieces::KING), 10000);
}

#[test]
fn square_names_parse_one_based() {
    let c = parse_square_name("e3").expect("e3 parses");
    assert_eq!((c.x, c.y), (5, 3));
    assert!(parse_square_name("j4").is_none());
    assert!(parse_square_name("e0").is_none());
    assert!(parse_square_name("e10").is_none());
}

#[test]
fn moves_get_short_names() {
    let mv = Move {
        piece: Piece { piece_type: PieceType::Knight, team: Team::White },
        from: Coordinates { x: 7, y: 1 },
        to: Coordinates { x: 6, y: 3 },
        check: true,
        capture: true,
        castle: false,
        ending: None,
        en_passant: false,
        promotion: false,
    };
    assert_eq!(nameMove(&mv), "Nxf3+");
    let quiet = Move {
        piece: Piece { piece_type: PieceType::Pawn, team: Team::White },
        from: Coordinates { x: 5, y: 2 },
        to: Coordinates { x: 5, y: 4 },
        check: false,
        capture: false,
        castle: false,
        ending: None,
        en_passant: false,
        promotion: false,
    };
    assert_eq!(nameMove(&quiet), "e4");
}

#[test]
fn mailbox_and_bit_position_primitives() {
    let mut mb = MailBox::new();
    assert!(mb.get_piece_at(0).is_none());
    assert!(mb.is_valid_position(0x34));
    assert!(!mb.is_valid_position(0x88));
    mb.set_piece_at(0x34, Some(GamePiece::Rook(Teams::BLACK)));
    assert_eq!(*mb.get_piece_at(0x34), Some(GamePiece::Rook(Teams::BLACK)));
    let mut bp = BitPosition::new();
    bp.move_or(Teams::WHITE, Pieces::ROOK, BitBoard(1 << 7));
    assert_eq!(bp.get_pieces(Teams::WHITE, Pieces::ROOK).0, 1 << 7);
    assert_eq!(bp.get_team_pieces(Teams::WHITE).0, 1 << 7);
    assert_eq!(bp.empty_squares().0, !(1u64 << 7));
    bp.move_and(Teams::WHITE, Pieces::ROOK, BitBoard(0));
    assert_eq!(bp.get_pieces(Teams::WHITE, Pieces::ROOK).0, 0);
}
