//! The mailbox and bitboard stores side by side, built from a position
//! string.

use vstd::prelude::*;
use crate::board::{BitPosition, GamePiece, MailBox, Piece, Team, spec_game_piece};
use crate::game::Vector;

verus! {

/// A mailbox and a bitboard table of the same position.
pub struct HybridChessBoard {
    pub mail_box: MailBox,
    pub bit_position: BitPosition,
}

impl HybridChessBoard {
    /// An empty board pair.
    pub fn new() -> (r: Self)
        ensures
            forall|i: int| 0 <= i < 128 ==> r.mail_box.spec_at(i) is None,
            forall|s: int, k: int| 0 <= s < 2 && 0 <= k < 6 ==> r.bit_position.spec_pieces(s, k)
                == 0,
    {
        let mail_box = MailBox::new();
        let bit_position = BitPosition::new();
        Self { mail_box, bit_position }
    }

    /// The piece on the mailbox square at `vector`.
    pub fn get_piece_at(&self, vector: Vector) -> (r: Option<GamePiece>)
        requires
            vector.x < 8,
            vector.y < 8,
        ensures
            r == self.mail_box.spec_at((vector.y * 16 + vector.x) as int),
    {
        let index = vector.mail_box_index();
        *self.mail_box.get_piece_at(index)
    }

    /// Where the first piece of the given kind and side stands in the
    /// mailbox, scanning squares in ascending order; `None` exactly when no
    /// square holds it.
    pub fn get_piece_location(&self, team: Team, piece: Piece) -> (r: Option<Vector>)
        requires
            piece < 6,
        ensures
            r matches Some(v) ==> v.x < 8 && v.y < 8 && self.mail_box.spec_at(
                (v.y * 16 + v.x) as int,
            ) == Some(spec_game_piece(piece, team)),
            r is None ==> forall|x2: int, y2: int|
                0 <= x2 < 8 && 0 <= y2 < 8 ==> #[trigger] self.mail_box.spec_at(y2 * 16 + x2)
                    != Some(spec_game_piece(piece, team)),
    {
        let wanted = GamePiece::from(piece, team);
        let mut sq: u8 = 0;
        while sq < 64
            invariant
                sq <= 64,
                piece < 6,
                wanted == spec_game_piece(piece, team),
                forall|x2: int, y2: int|
                    0 <= x2 < 8 && 0 <= y2 < 8 && y2 * 8 + x2 < sq ==> #[trigger] self.mail_box.spec_at(
                        y2 * 16 + x2,
                    ) != Some(spec_game_piece(piece, team)),
            decreases 64 - sq,
        {
            let x = sq % 8;
            let y = sq / 8;
            let mbi = (y as usize) * 16 + (x as usize);
            if let Some(p) = *self.mail_box.get_piece_at(mbi) {
                if p == wanted {
                    return Some(Vector { x, y });
                }
            }
            sq = sq + 1;
        }
        None
    }

    /// Builds the board pair from a position string, or `None` exactly when
    /// the string is malformed; the mailbox and the piece bitboards both hold
    /// what the placement field says.
    pub fn from_fen(fen: &str) -> (r: Option<Self>)
        ensures
            r is Some <==> crate::game::fen::spec_fen_ok(fen@),
            r matches Some(h) ==> {
                let cells = crate::game::fen::spec_placement(
                    fen@.subrange(
                        crate::game::fen::spec_fen_fields(fen@)[0].0,
                        crate::game::fen::spec_fen_fields(fen@)[0].1,
                    ),
                )->Some_0;
                &&& forall|sq: int|
                    0 <= sq < 64 ==> #[trigger] h.mail_box.spec_at((sq / 8) * 16 + sq % 8)
                        == cells[sq]
                &&& forall|s: int, k: int, sq: u64|
                    0 <= s < 2 && 0 <= k < 6 && sq < 64 ==> (#[trigger] crate::bits::bit_at(
                        h.bit_position.spec_pieces(s, k),
                        sq,
                    ) <==> cells[sq as int] == Some(spec_game_piece(k as usize, s as usize)))
            },
    {
        match crate::game::fen::new_board(fen) {
            Some(board) => {
                proof {
                    let ghost cells = crate::game::fen::spec_placement(
                        fen@.subrange(
                            crate::game::fen::spec_fen_fields(fen@)[0].0,
                            crate::game::fen::spec_fen_fields(fen@)[0].1,
                        ),
                    )->Some_0;
                    assert forall|sq: int| 0 <= sq < 64 implies #[trigger] board.mailbox.spec_at(
                        (sq / 8) * 16 + sq % 8,
                    ) == cells[sq] by {
                        assert(crate::board::board::bv_at(board@, sq as u64)
                            == board.mailbox.spec_at(
                            crate::board::board::spec_mb_index(sq),
                        ));
                    }
                    assert forall|s: int, k: int, sq: u64|
                        0 <= s < 2 && 0 <= k < 6 && sq < 64 implies (#[trigger] crate::bits::bit_at(
                        board.bits.spec_pieces(s, k),
                        sq,
                    ) <==> cells[sq as int] == Some(spec_game_piece(k as usize, s as usize))) by {
                        assert(crate::board::board::bv_piece(board@, s, k)
                            == board.bits.spec_pieces(s, k));
                        assert(crate::board::board::bv_at(board@, sq) == cells[sq as int]);
                    }
                }
                Some(Self { mail_box: board.mailbox, bit_position: board.bits })
            },
            None => None,
        }
    }
}

} // verus!
