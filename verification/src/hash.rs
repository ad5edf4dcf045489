//! Zobrist hashing: a table of random keys, one per piece-square pair, side
//! to move, castling right and en-passant file, XOR-combined into a 64-bit
//! fingerprint of a position.

use vstd::prelude::*;
use crate::bits::{bit_at, lemma_xor_zero};
use crate::board::board::{BoardView, bv_piece, ChessBoard};
use crate::board::{Pieces, Teams};
use crate::board::state::CastlingSides;

verus! {

/// Relies on rand::thread_rng and rand::Rng::gen: a fresh random 64-bit
/// value; nothing is promised of it.
#[verifier::external_body]
pub(crate) fn random_u64() -> u64 {
    rand::Rng::gen(&mut rand::thread_rng())
}

/// The Zobrist key table: filled once with random keys when built, read-only
/// afterwards. The fifty-move-rule key is reserved and unused.
#[derive(Clone)]
pub struct ZobristHash {
    piece_keys: [[[u64; 64]; 6]; 2],
    turn_key: u64,
    castling_keys: [u64; 4],
    en_passant_keys: [u64; 8],
    fifty_move_rule_key: u64,
}

impl ZobristHash {
    /// The XOR of the keys of side `t`'s pieces of kind `p` on the squares
    /// below `n` that the position holds.
    pub closed spec fn spec_hash_sq(self, v: BoardView, t: int, p: int, n: int) -> u64
        decreases n,
    {
        if n <= 0 {
            0
        } else {
            self.spec_hash_sq(v, t, p, n - 1) ^ (if bit_at(bv_piece(v, t, p), (n - 1) as u64) {
                self.piece_keys@[t]@[p]@[n - 1]
            } else {
                0
            })
        }
    }

    /// The XOR over the first `m` of the twelve (side, kind) piece boards.
    pub closed spec fn spec_hash_pieces(self, v: BoardView, m: int) -> u64
        decreases m,
    {
        if m <= 0 {
            0
        } else {
            self.spec_hash_pieces(v, m - 1) ^ self.spec_hash_sq(v, (m - 1) / 6, (m - 1) % 6, 64)
        }
    }

    /// The full fingerprint of a position: every piece-square key whose square
    /// is held, the turn key when White is to move, a key per kept castling
    /// right, and the file key of the en-passant target if one exists.
    pub closed spec fn spec_hash(self, v: BoardView) -> u64 {
        self.spec_hash_pieces(v, 12) ^ (if v.turn == 0 {
            self.turn_key
        } else {
            0
        }) ^ (if v.castling & 0b0001 != 0 {
            self.castling_keys@[0]
        } else {
            0
        }) ^ (if v.castling & 0b0010 != 0 {
            self.castling_keys@[1]
        } else {
            0
        }) ^ (if v.castling & 0b0100 != 0 {
            self.castling_keys@[2]
        } else {
            0
        }) ^ (if v.castling & 0b1000 != 0 {
            self.castling_keys@[3]
        } else {
            0
        }) ^ (match v.ep {
            Some(e) => self.en_passant_keys@[e as int % 8],
            None => 0,
        })
    }

    /// Builds the table from fresh random keys.
    pub fn new() -> Self {
        let mut piece_keys = [[[0u64; 64]; 6]; 2];
        let mut team: usize = 0;
        while team < 2
            invariant
                team <= 2,
            decreases 2 - team,
        {
            let mut cube = piece_keys[team];
            let mut piece: usize = 0;
            while piece < 6
                invariant
                    piece <= 6,
                decreases 6 - piece,
            {
                let mut row = cube[piece];
                let mut square: usize = 0;
                while square < 64
                    invariant
                        square <= 64,
                    decreases 64 - square,
                {
                    row[square] = random_u64();
                    square = square + 1;
                }
                cube[piece] = row;
                piece = piece + 1;
            }
            piece_keys[team] = cube;
            team = team + 1;
        }
        let turn_key = random_u64();
        let mut castling_keys = [0u64; 4];
        let mut i: usize = 0;
        while i < 4
            invariant
                i <= 4,
            decreases 4 - i,
        {
            castling_keys[i] = random_u64();
            i = i + 1;
        }
        let mut en_passant_keys = [0u64; 8];
        let mut j: usize = 0;
        while j < 8
            invariant
                j <= 8,
            decreases 8 - j,
        {
            en_passant_keys[j] = random_u64();
            j = j + 1;
        }
        let fifty_move_rule_key = random_u64();
        ZobristHash { piece_keys, turn_key, castling_keys, en_passant_keys, fifty_move_rule_key }
    }

    /// The fingerprint of `board`. Structurally equal positions hash alike,
    /// because the result is a function of the key table and the position.
    pub fn hash(&self, board: &ChessBoard) -> (r: u64)
        requires
            board.wf(),
        ensures
            r == self.spec_hash(board@),
    {
        proof {
            lemma_xor_zero();
        }
        let ghost v = board@;
        let mut h: u64 = 0;
        let mut m: usize = 0;
        while m < 12
            invariant
                m <= 12,
                board.wf(),
                v == board@,
                h == self.spec_hash_pieces(v, m as int),
            decreases 12 - m,
        {
            let team = m / 6;
            let piece = m % 6;
            let bb = board.bits.get_pieces(team, piece);
            proof {
                assert(bb.0 == bv_piece(v, team as int, piece as int));
            }
            let mut hp: u64 = 0;
            let mut sq: usize = 0;
            while sq < 64
                invariant
                    sq <= 64,
                    team < 2,
                    piece < 6,
                    bb.0 == bv_piece(v, team as int, piece as int),
                    hp == self.spec_hash_sq(v, team as int, piece as int, sq as int),
                decreases 64 - sq,
            {
                if (bb.0 >> (sq as u64)) & 1 == 1 {
                    hp = hp ^ self.piece_keys[team][piece][sq];
                } else {
                    proof {
                        lemma_xor_zero();
                        assert(!bit_at(bb.0, sq as u64));
                    }
                }
                sq = sq + 1;
            }
            h = h ^ hp;
            m = m + 1;
        }
        proof {
            lemma_xor_zero();
        }
        if board.state.team_to_play == Teams::WHITE {
            h = h ^ self.turn_key;
        }
        let rights = &board.state.castling_rights;
        if rights.is_allowed(Teams::WHITE, CastlingSides::KINGSIDE) {
            h = h ^ self.castling_keys[0];
        }
        if rights.is_allowed(Teams::WHITE, CastlingSides::QUEENSIDE) {
            h = h ^ self.castling_keys[1];
        }
        if rights.is_allowed(Teams::BLACK, CastlingSides::KINGSIDE) {
            h = h ^ self.castling_keys[2];
        }
        if rights.is_allowed(Teams::BLACK, CastlingSides::QUEENSIDE) {
            h = h ^ self.castling_keys[3];
        }
        if let Some(en_passant_square) = board.state.en_passant_square {
            proof {
                assert(en_passant_square < 64);
            }
            h = h ^ self.en_passant_keys[en_passant_square % 8];
        }
        h
    }
}

/// Undoing a played move restores the Zobrist fingerprint along with the
/// position.
pub proof fn lemma_play_undo_restores_hash(z: ZobristHash, v: BoardView, from: u64, to: u64)
    requires
        crate::board::board::bv_wf(v),
        crate::board::board::play_ok(v, from, to),
    ensures
        z.spec_hash(
            crate::board::board::bv_undo(
                crate::board::board::bv_play(v, from, to),
                crate::board::board::spec_play_record(v, from, to),
            ),
        ) == z.spec_hash(v),
{
    crate::board::board::lemma_play_undo_roundtrip(v, from, to);
}

/// Structurally equal positions always receive the same fingerprint.
pub proof fn lemma_hash_deterministic(z: ZobristHash, a: BoardView, b: BoardView)
    requires
        a == b,
    ensures
        z.spec_hash(a) == z.spec_hash(b),
{
}

} // verus!
