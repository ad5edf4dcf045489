//! Zobrist fingerprints for the square-array board.

use vstd::prelude::*;
use crate::game::{PieceType, Team};
use crate::game::engine::BoardLogic;

verus! {

/// The key table for square-array positions: one key per piece-kind, side
/// and square, one per castling right, one per en-passant file, and one for
/// the side to move.
pub struct ZobristTable {
    pieces: [[[u64; 8]; 8]; 12],
    castling: [u64; 4],
    en_passant: [u64; 8],
    side_to_move: u64,
}

/// The index of a piece kind in the key table.
pub open spec fn spec_piece_index(t: PieceType) -> int {
    match t {
        PieceType::King => 0,
        PieceType::Queen => 1,
        PieceType::Rook => 2,
        PieceType::Bishop => 3,
        PieceType::Knight => 4,
        PieceType::Pawn => 5,
    }
}

impl ZobristTable {
    /// The key of the piece on cell `n` (row-major, zero-based), if any.
    pub closed spec fn spec_cell_key(self, b: BoardLogic, n: int) -> u64 {
        match b.spec_at(n % 8 + 1, n / 8 + 1) {
            Some(p) => self.pieces@[spec_piece_index(p.piece_type) * 2 + (match p.team {
                Team::White => 0int,
                Team::Black => 1int,
            })]@[n % 8]@[n / 8],
            None => 0,
        }
    }

    /// The XOR of the piece keys of the first `n` cells.
    pub closed spec fn spec_hash_upto(self, b: BoardLogic, n: int) -> u64
        decreases n,
    {
        if n <= 0 {
            0
        } else {
            self.spec_hash_upto(b, n - 1) ^ self.spec_cell_key(b, n - 1)
        }
    }

    /// The full fingerprint: every piece key, a key per kept castling right,
    /// the en-passant file key, and the turn key when Black is to move.
    pub closed spec fn spec_hash(self, b: BoardLogic) -> u64 {
        self.spec_hash_upto(b, 64) ^ (if b.state.castling.white_king_side {
            self.castling@[0]
        } else {
            0
        }) ^ (if b.state.castling.white_queen_side {
            self.castling@[1]
        } else {
            0
        }) ^ (if b.state.castling.black_king_side {
            self.castling@[2]
        } else {
            0
        }) ^ (if b.state.castling.black_queen_side {
            self.castling@[3]
        } else {
            0
        }) ^ (match b.state.en_passant_target_square {
            Some(c) => if 1 <= c.x <= 8 {
                self.en_passant@[c.x - 1]
            } else {
                0
            },
            None => 0,
        }) ^ (if b.state.team_to_play == Team::Black {
            self.side_to_move
        } else {
            0
        })
    }

    /// Builds the table from fresh random keys.
    pub fn new() -> Self {
        let mut pieces = [[[0u64; 8]; 8]; 12];
        let mut i: usize = 0;
        while i < 12
            invariant
                i <= 12,
            decreases 12 - i,
        {
            let mut plane = pieces[i];
            let mut x: usize = 0;
            while x < 8
                invariant
                    x <= 8,
                decreases 8 - x,
            {
                let mut row = plane[x];
                let mut y: usize = 0;
                while y < 8
                    invariant
                        y <= 8,
                    decreases 8 - y,
                {
                    row[y] = crate::hash::random_u64();
                    y = y + 1;
                }
                plane[x] = row;
                x = x + 1;
            }
            pieces[i] = plane;
            i = i + 1;
        }
        let mut castling = [0u64; 4];
        let mut c: usize = 0;
        while c < 4
            invariant
                c <= 4,
            decreases 4 - c,
        {
            castling[c] = crate::hash::random_u64();
            c = c + 1;
        }
        let mut en_passant = [0u64; 8];
        let mut e: usize = 0;
        while e < 8
            invariant
                e <= 8,
            decreases 8 - e,
        {
            en_passant[e] = crate::hash::random_u64();
            e = e + 1;
        }
        let side_to_move = crate::hash::random_u64();
        ZobristTable { pieces, castling, en_passant, side_to_move }
    }
}

impl BoardLogic {
    /// The fingerprint of this board under the given key table. Structurally
    /// equal boards hash alike, because the result is a function of the keys
    /// and the board.
    pub fn zobrist_hash(&self, table: &ZobristTable) -> (r: u64)
        ensures
            r == table.spec_hash(*self),
    {
        proof {
            crate::bits::lemma_xor_zero();
        }
        let mut h: u64 = 0;
        let mut n: usize = 0;
        while n < 64
            invariant
                n <= 64,
                h == table.spec_hash_upto(*self, n as int),
            decreases 64 - n,
        {
            proof {
                crate::bits::lemma_xor_zero();
            }
            let x = (n % 8 + 1) as i8;
            let y = (n / 8 + 1) as i8;
            if let Some(piece) = self.get_piece_at(x, y) {
                let piece_index: usize = match piece.piece_type {
                    PieceType::King => 0,
                    PieceType::Queen => 1,
                    PieceType::Rook => 2,
                    PieceType::Bishop => 3,
                    PieceType::Knight => 4,
                    PieceType::Pawn => 5,
                };
                let team_index: usize = match piece.team {
                    Team::White => 0,
                    Team::Black => 1,
                };
                h = h ^ table.pieces[piece_index * 2 + team_index][n % 8][n / 8];
            }
            n = n + 1;
        }
        if self.state.castling.white_king_side {
            h = h ^ table.castling[0];
        }
        if self.state.castling.white_queen_side {
            h = h ^ table.castling[1];
        }
        if self.state.castling.black_king_side {
            h = h ^ table.castling[2];
        }
        if self.state.castling.black_queen_side {
            h = h ^ table.castling[3];
        }
        if let Some(en_passant) = self.state.en_passant_target_square {
            if en_passant.x >= 1 && en_passant.x <= 8 {
                h = h ^ table.en_passant[(en_passant.x - 1) as usize];
            }
        }
        if self.state.team_to_play == Team::Black {
            h = h ^ table.side_to_move;
        }
        h
    }
}

/// Structurally equal boards always receive the same fingerprint.
pub proof fn lemma_board_hash_deterministic(t: ZobristTable, a: BoardLogic, b: BoardLogic)
    requires
        a == b,
    ensures
        t.spec_hash(a) == t.spec_hash(b),
{
}

} // verus!
