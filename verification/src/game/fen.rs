//! Building a position from a six-field position string: piece placement,
//! side to move, castling availability, en-passant target, and the two move
//! counters (accepted and ignored).

use vstd::prelude::*;
use vstd::string::StrSliceExecFns;
use crate::bits::lemma_bit_none;
use crate::board::{BitPosition, GamePiece, MailBox, Pieces, Teams, spec_game_piece};
use crate::board::board::{bv_at, bv_wf, ChessBoard, spec_mb_index, lemma_mb_index_injective};
use crate::board::state::{CastlingRights, CastlingSides, ChessState};

verus! {


/// The space-separated token ranges of `s` from position `i` on, given the
/// scan state: `in_token` says a token began at `start`.
pub open spec fn spec_tokens(
    s: Seq<char>,
    i: int,
    in_token: bool,
    start: int,
    acc: Seq<(int, int)>,
) -> Seq<(int, int)>
    decreases s.len() - i,
{
    if i < 0 || i >= s.len() {
        if in_token {
            acc.push((start, s.len() as int))
        } else {
            acc
        }
    } else if s[i] == ' ' {
        if in_token {
            spec_tokens(s, i + 1, false, 0, acc.push((start, i)))
        } else {
            spec_tokens(s, i + 1, false, 0, acc)
        }
    } else {
        if in_token {
            spec_tokens(s, i + 1, true, start, acc)
        } else {
            spec_tokens(s, i + 1, true, i, acc)
        }
    }
}

/// The space-separated fields of `s`, each as its start and end position.
pub open spec fn spec_fen_fields(s: Seq<char>) -> Seq<(int, int)> {
    spec_tokens(s, 0, false, 0, Seq::empty())
}

/// The piece a placement letter stands for.
pub open spec fn spec_piece_of_char(c: char) -> Option<GamePiece> {
    if c == 'P' {
        Some(GamePiece::Pawn(0))
    } else if c == 'N' {
        Some(GamePiece::Knight(0))
    } else if c == 'B' {
        Some(GamePiece::Bishop(0))
    } else if c == 'R' {
        Some(GamePiece::Rook(0))
    } else if c == 'Q' {
        Some(GamePiece::Queen(0))
    } else if c == 'K' {
        Some(GamePiece::King(0))
    } else if c == 'p' {
        Some(GamePiece::Pawn(1))
    } else if c == 'n' {
        Some(GamePiece::Knight(1))
    } else if c == 'b' {
        Some(GamePiece::Bishop(1))
    } else if c == 'r' {
        Some(GamePiece::Rook(1))
    } else if c == 'q' {
        Some(GamePiece::Queen(1))
    } else if c == 'k' {
        Some(GamePiece::King(1))
    } else {
        None
    }
}

/// The value of a placement digit.
pub open spec fn spec_digit_val(c: char) -> Option<int> {
    if c == '1' {
        Some(1int)
    } else if c == '2' {
        Some(2int)
    } else if c == '3' {
        Some(3int)
    } else if c == '4' {
        Some(4int)
    } else if c == '5' {
        Some(5int)
    } else if c == '6' {
        Some(6int)
    } else if c == '7' {
        Some(7int)
    } else if c == '8' {
        Some(8int)
    } else {
        None
    }
}

/// Reading the placement field from position `i` with the cursor at `rank`
/// and `file` (both zero-based), over the board `acc` (64 squares in
/// little-endian rank-file order): the board the whole field describes, or
/// `None` when the field is malformed.
pub open spec fn spec_placement_from(
    s: Seq<char>,
    i: int,
    rank: int,
    file: int,
    acc: Seq<Option<GamePiece>>,
) -> Option<Seq<Option<GamePiece>>>
    decreases s.len() - i,
{
    if i < 0 || i >= s.len() {
        if rank == 0 && file == 8 {
            Some(acc)
        } else {
            None
        }
    } else {
        let c = s[i];
        if c == '/' {
            if rank > 0 && file == 8 {
                spec_placement_from(s, i + 1, rank - 1, 0, acc)
            } else {
                None
            }
        } else {
            match spec_digit_val(c) {
                Some(d) => if file + d <= 8 {
                    spec_placement_from(s, i + 1, rank, file + d, acc)
                } else {
                    None
                },
                None => match spec_piece_of_char(c) {
                    Some(gp) => if file < 8 {
                        spec_placement_from(
                            s,
                            i + 1,
                            rank,
                            file + 1,
                            acc.update(rank * 8 + file, Some(gp)),
                        )
                    } else {
                        None
                    },
                    None => None,
                },
            }
        }
    }
}

/// The board a placement field describes, or `None` when it is malformed.
pub open spec fn spec_placement(s: Seq<char>) -> Option<Seq<Option<GamePiece>>> {
    spec_placement_from(s, 0, 7, 0, Seq::new(64, |i: int| None))
}

/// The side a side field names.
pub open spec fn spec_side_field(s: Seq<char>) -> Option<usize> {
    if s.len() == 1 && s[0] == 'w' {
        Some(0usize)
    } else if s.len() == 1 && s[0] == 'b' {
        Some(1usize)
    } else {
        None
    }
}

/// Reading right letters from position `i` with the rights `acc` so far:
/// the rights bits the letters grant, or `None` on any other character.
pub open spec fn spec_castling_from(s: Seq<char>, i: int, acc: u8) -> Option<u8>
    decreases s.len() - i,
{
    if i < 0 || i >= s.len() {
        Some(acc)
    } else if s[i] == 'K' {
        spec_castling_from(s, i + 1, acc | 0b0001)
    } else if s[i] == 'Q' {
        spec_castling_from(s, i + 1, acc | 0b0010)
    } else if s[i] == 'k' {
        spec_castling_from(s, i + 1, acc | 0b0100)
    } else if s[i] == 'q' {
        spec_castling_from(s, i + 1, acc | 0b1000)
    } else {
        None
    }
}

/// The rights bits a castling field grants: none for the field "-", the
/// granted rights for a field of right letters, `None` for anything else.
pub open spec fn spec_castling_field(s: Seq<char>) -> Option<u8> {
    if s.len() == 1 && s[0] == '-' {
        Some(0)
    } else {
        spec_castling_from(s, 0, 0)
    }
}

/// The en-passant target an en-passant field names: nothing for "-", the
/// named square for a square name, `None` when the field is malformed.
pub open spec fn spec_ep_field(s: Seq<char>) -> Option<Option<usize>> {
    if s.len() == 1 && s[0] == '-' {
        Some(None)
    } else if s.len() == 2 && 'a' as u8 <= s[0] as u8 <= 'h' as u8 && '1' as u8 <= s[1] as u8
        <= '8' as u8 {
        Some(Some(((s[1] as u8 - '1' as u8) * 8 + (s[0] as u8 - 'a' as u8)) as usize))
    } else {
        None
    }
}

/// A position string the parser accepts: exactly six fields, the first four
/// each well formed (the move counters are accepted unread).
pub open spec fn spec_fen_ok(s: Seq<char>) -> bool {
    let toks = spec_fen_fields(s);
    &&& toks.len() == 6
    &&& spec_placement(s.subrange(toks[0].0, toks[0].1)) is Some
    &&& spec_side_field(s.subrange(toks[1].0, toks[1].1)) is Some
    &&& spec_castling_field(s.subrange(toks[2].0, toks[2].1)) is Some
    &&& spec_ep_field(s.subrange(toks[3].0, toks[3].1)) is Some
}

/// An empty, consistent position with the given scalar state.
fn empty_board(state: ChessState) -> (r: ChessBoard)
    requires
        state.team_to_play < 2,
        state.en_passant_square matches Some(e) ==> e < 64,
    ensures
        r.wf(),
        r.state == state,
        forall|sq: u64| sq < 64 ==> bv_at(r@, sq) is None,
{
    let bits = BitPosition::new();
    let mailbox = MailBox::new();
    proof {
        lemma_bit_none();
        lemma_mb_index_injective();
    }
    let b = ChessBoard::new(bits, mailbox, state);
    proof {
        lemma_mb_index_injective();
        assert forall|sq: u64| sq < 64 implies bv_at(b@, sq) is None by {
            assert(0 <= spec_mb_index(sq as int) < 128);
        }
    }
    b
}

/// Parses a position string and builds the position, or returns `None` when
/// any field is malformed: the string must hold exactly six fields, and the
/// returned board's squares and scalar state are exactly what the placement,
/// side, castling and en-passant fields say. The halfmove clock and fullmove
/// number are accepted but not kept.
#[verifier::rlimit(100)]
pub fn new_board(fen: &str) -> (r: Option<ChessBoard>)
    ensures
        r is Some <==> spec_fen_ok(fen@),
        r matches Some(b) ==> {
            let toks = spec_fen_fields(fen@);
            &&& b.wf()
            &&& forall|sq: u64|
                sq < 64 ==> bv_at(b@, sq) == spec_placement(
                    fen@.subrange(toks[0].0, toks[0].1),
                )->Some_0[sq as int]
            &&& b@.turn == spec_side_field(fen@.subrange(toks[1].0, toks[1].1))->Some_0
            &&& b@.castling == spec_castling_field(fen@.subrange(toks[2].0, toks[2].1))->Some_0
            &&& b@.ep == spec_ep_field(fen@.subrange(toks[3].0, toks[3].1))->Some_0
        },
{
    let len = fen.unicode_len();
    // Token boundaries: exactly six space-separated fields.
    let mut starts: Vec<usize> = Vec::new();
    let mut ends: Vec<usize> = Vec::new();
    let mut i: usize = 0;
    let mut in_token = false;
    proof {
        assert(Seq::new(0, |j: int| (starts[j] as int, ends[j] as int)) =~= Seq::empty());
    }
    while i < len
        invariant
            i <= len,
            len == fen@.len(),
            starts.len() == ends.len() + (if in_token {
                1int
            } else {
                0int
            }),
            forall|j: int| 0 <= j < starts.len() ==> #[trigger] starts[j] < len,
            forall|j: int| 0 <= j < ends.len() ==> #[trigger] ends[j] <= len,
            forall|j: int| 0 <= j < ends.len() ==> ends[j] > starts[j],
            in_token ==> starts.len() > 0 && starts[starts.len() - 1] < i,
            spec_fen_fields(fen@) == spec_tokens(
                fen@,
                i as int,
                in_token,
                if in_token {
                    starts[starts.len() - 1] as int
                } else {
                    0int
                },
                Seq::new(ends.len() as nat, |j: int| (starts[j] as int, ends[j] as int)),
            ),
        decreases len - i,
    {
        let ghost acc0 = Seq::new(ends.len() as nat, |j: int| (starts[j] as int, ends[j] as int));
        let ghost in0 = in_token;
        let ghost st0: int = if in_token {
            starts[starts.len() - 1] as int
        } else {
            0int
        };
        let c = fen.get_char(i);
        if c == ' ' {
            if in_token {
                let ghost st = starts[starts.len() - 1] as int;
                ends.push(i);
                in_token = false;
                proof {
                    assert(Seq::new(
                        ends.len() as nat,
                        |j: int| (starts[j] as int, ends[j] as int),
                    ) =~= acc0.push((st, i as int)));
                    assert(spec_tokens(fen@, i as int, true, st, acc0) == spec_tokens(
                        fen@,
                        i + 1,
                        false,
                        0,
                        acc0.push((st, i as int)),
                    ));
                }
            } else {
                proof {
                    assert(spec_tokens(fen@, i as int, false, 0, acc0) == spec_tokens(
                        fen@,
                        i + 1,
                        false,
                        0,
                        acc0,
                    ));
                }
            }
        } else {
            if !in_token {
                starts.push(i);
                in_token = true;
                proof {
                    assert(Seq::new(
                        ends.len() as nat,
                        |j: int| (starts[j] as int, ends[j] as int),
                    ) =~= acc0);
                    assert(spec_tokens(fen@, i as int, false, 0, acc0) == spec_tokens(
                        fen@,
                        i + 1,
                        true,
                        i as int,
                        acc0,
                    ));
                }
            } else {
                proof {
                    assert(spec_tokens(fen@, i as int, true, st0, acc0) == spec_tokens(
                        fen@,
                        i + 1,
                        true,
                        st0,
                        acc0,
                    ));
                }
            }
        }
        i = i + 1;
    }
    if in_token {
        let ghost st = starts[starts.len() - 1] as int;
        let ghost acc0 = Seq::new(ends.len() as nat, |j: int| (starts[j] as int, ends[j] as int));
        ends.push(len);
        proof {
            assert(Seq::new(ends.len() as nat, |j: int| (starts[j] as int, ends[j] as int))
                =~= acc0.push((st, len as int)));
        }
    }
    proof {
        assert(spec_fen_fields(fen@) == Seq::new(
            ends.len() as nat,
            |j: int| (starts[j] as int, ends[j] as int),
        ));
    }
    let ghost toks = spec_fen_fields(fen@);
    if starts.len() != 6 || ends.len() != 6 {
        return None;
    }
    proof {
        assert(toks.len() == 6);
        assert(forall|j: int| 0 <= j < 6 ==> #[trigger] toks[j] == (starts[j] as int, ends[j] as int));
    }
    // Field 2: side to move.
    let ghost seg1 = fen@.subrange(toks[1].0, toks[1].1);
    if ends[1] != starts[1] + 1 {
        proof {
            assert(seg1.len() != 1);
        }
        return None;
    }
    let side_ch = fen.get_char(starts[1]);
    proof {
        assert(seg1.len() == 1 && seg1[0] == fen@[starts[1] as int]);
    }
    let team_to_play: usize = if side_ch == 'w' {
        Teams::WHITE
    } else if side_ch == 'b' {
        Teams::BLACK
    } else {
        return None;
    };
    // Field 3: castling availability. A '-' counts only as the whole field;
    // otherwise only right letters are accepted, through the end of the field.
    let ghost seg2 = fen@.subrange(toks[2].0, toks[2].1);
    let mut castling_rights = CastlingRights::none();
    let cast_start: usize = starts[2];
    let cast_end: usize = ends[2];
    if cast_end == cast_start + 1 && fen.get_char(cast_start) == '-' {
        proof {
            assert(seg2.len() == 1 && seg2[0] == fen@[cast_start as int]);
            assert(spec_castling_field(seg2) == Some(castling_rights.spec_bits()));
        }
    } else {
        proof {
            assert(!(seg2.len() == 1 && seg2[0] == '-'));
        }
        let mut j: usize = cast_start;
        while j < cast_end
            invariant
                len == fen@.len(),
                cast_start <= j,
                cast_start < cast_end <= len,
                toks == spec_fen_fields(fen@),
                toks.len() == 6,
                toks[2] == (cast_start as int, cast_end as int),
                spec_side_field(fen@.subrange(toks[1].0, toks[1].1)) is Some,
                seg2 == fen@.subrange(cast_start as int, cast_end as int),
                !(seg2.len() == 1 && seg2[0] == '-'),
                spec_castling_from(seg2, j - cast_start, castling_rights.spec_bits())
                    == spec_castling_from(seg2, 0, 0),
            decreases cast_end - j,
        {
            proof {
                assert(seg2[j - cast_start] == fen@[j as int]);
            }
            let c = fen.get_char(j);
            if c == 'K' {
                castling_rights.allow(Teams::WHITE, CastlingSides::KINGSIDE);
            } else if c == 'Q' {
                castling_rights.allow(Teams::WHITE, CastlingSides::QUEENSIDE);
            } else if c == 'k' {
                castling_rights.allow(Teams::BLACK, CastlingSides::KINGSIDE);
            } else if c == 'q' {
                castling_rights.allow(Teams::BLACK, CastlingSides::QUEENSIDE);
            } else {
                proof {
                    assert(spec_castling_from(seg2, 0, 0) is None);
                    assert(spec_castling_field(seg2) is None);
                }
                return None;
            }
            j = j + 1;
        }
        proof {
            assert(spec_castling_field(seg2) == Some(castling_rights.spec_bits()));
        }
    }
    // Field 4: en-passant target square.
    let ghost seg3 = fen@.subrange(toks[3].0, toks[3].1);
    let ep_len = ends[3] - starts[3];
    let ep_first = fen.get_char(starts[3]);
    proof {
        assert(seg3.len() == ep_len);
        assert(seg3[0] == fen@[starts[3] as int]);
    }
    let en_passant_square: Option<usize> = if ep_len == 1 && ep_first == '-' {
        None
    } else if ep_len == 2 {
        let fc = ep_first as u8;
        let rc = fen.get_char(starts[3] + 1) as u8;
        proof {
            assert(seg3[1] == fen@[starts[3] + 1int]);
        }
        if fc < 'a' as u8 || fc > 'h' as u8 || rc < '1' as u8 || rc > '8' as u8 {
            return None;
        }
        let file = (fc - 'a' as u8) as usize;
        let rank = (rc - '1' as u8) as usize;
        Some(rank * 8 + file)
    } else {
        return None;
    };
    proof {
        assert(spec_ep_field(seg3) == Some(en_passant_square));
    }
    let state = ChessState { castling_rights, en_passant_square, team_to_play };
    // Field 1: piece placement, from rank 7 down to rank 0.
    let ghost seg0 = fen@.subrange(toks[0].0, toks[0].1);
    let mut board = empty_board(state);
    proof {
        assert(Seq::new(64, |i2: int| bv_at(board@, i2 as u64)) =~= Seq::new(
            64,
            |i2: int| None::<GamePiece>,
        ));
    }
    let mut rank: usize = 7;
    let mut file: usize = 0;
    let mut k: usize = starts[0];
    let p_start: usize = starts[0];
    let place_end: usize = ends[0];
    while k < place_end
        invariant
            len == fen@.len(),
            p_start <= k,
            p_start < place_end <= len,
            toks == spec_fen_fields(fen@),
            toks.len() == 6,
            toks[0] == (p_start as int, place_end as int),
            spec_side_field(fen@.subrange(toks[1].0, toks[1].1)) is Some,
            spec_castling_field(fen@.subrange(toks[2].0, toks[2].1)) is Some,
            spec_ep_field(fen@.subrange(toks[3].0, toks[3].1)) is Some,
            seg0 == fen@.subrange(p_start as int, place_end as int),
            board.wf(),
            board.state == state,
            rank <= 7,
            file <= 8,
            forall|sq: u64|
                sq < 64 && bv_at(board@, sq) is Some ==> (sq as int / 8 > rank || (sq as int / 8
                    == rank && sq as int % 8 < file)),
            spec_placement_from(
                seg0,
                k - p_start,
                rank as int,
                file as int,
                Seq::new(64, |i2: int| bv_at(board@, i2 as u64)),
            ) == spec_placement(seg0),
        decreases place_end - k,
    {
        proof {
            assert(seg0[k - p_start] == fen@[k as int]);
        }
        let c = fen.get_char(k);
        if c == '/' {
            if rank == 0 || file != 8 {
                proof {
                    assert(spec_placement(seg0) is None);
                }
                return None;
            }
            rank = rank - 1;
            file = 0;
        } else if c == '1' || c == '2' || c == '3' || c == '4' || c == '5' || c == '6' || c == '7'
            || c == '8' {
            let d = (c as u8 - '0' as u8) as usize;
            if file + d > 8 {
                proof {
                    assert(spec_placement(seg0) is None);
                }
                return None;
            }
            file = file + d;
        } else {
            if file >= 8 {
                proof {
                    assert(spec_piece_of_char(fen@[k as int]) is Some || spec_placement(
                        seg0,
                    ) is None);
                    assert(spec_placement(seg0) is None);
                }
                return None;
            }
            let (piece, team): (usize, usize) = if c == 'P' {
                (Pieces::PAWN, Teams::WHITE)
            } else if c == 'N' {
                (Pieces::KNIGHT, Teams::WHITE)
            } else if c == 'B' {
                (Pieces::BISHOP, Teams::WHITE)
            } else if c == 'R' {
                (Pieces::ROOK, Teams::WHITE)
            } else if c == 'Q' {
                (Pieces::QUEEN, Teams::WHITE)
            } else if c == 'K' {
                (Pieces::KING, Teams::WHITE)
            } else if c == 'p' {
                (Pieces::PAWN, Teams::BLACK)
            } else if c == 'n' {
                (Pieces::KNIGHT, Teams::BLACK)
            } else if c == 'b' {
                (Pieces::BISHOP, Teams::BLACK)
            } else if c == 'r' {
                (Pieces::ROOK, Teams::BLACK)
            } else if c == 'q' {
                (Pieces::QUEEN, Teams::BLACK)
            } else if c == 'k' {
                (Pieces::KING, Teams::BLACK)
            } else {
                proof {
                    assert(spec_placement(seg0) is None);
                }
                return None;
            };
            let sq = (rank * 8 + file) as u8;
            let ghost vb = board@;
            let ghost cells0 = Seq::new(64, |i2: int| bv_at(board@, i2 as u64));
            proof {
                lemma_mb_index_injective();
                assert(spec_piece_of_char(fen@[k as int]) == Some(spec_game_piece(piece, team)));
            }
            board.put_square(sq, GamePiece::from(piece, team));
            proof {
                lemma_mb_index_injective();
                assert forall|sq2: u64|
                    sq2 < 64 && bv_at(board@, sq2) is Some implies (sq2 as int / 8 > rank || (
                sq2 as int / 8 == rank && sq2 as int % 8 < file + 1)) by {
                    if sq2 != sq as u64 {
                        assert(spec_mb_index(sq2 as int) != spec_mb_index(sq as int));
                        assert(bv_at(board@, sq2) == bv_at(vb, sq2));
                    }
                }
                assert forall|i2: int| 0 <= i2 < 64 implies #[trigger] bv_at(board@, i2 as u64)
                    == cells0.update(
                    rank as int * 8 + file as int,
                    Some(spec_game_piece(piece, team)),
                )[i2] by {
                    if i2 != rank as int * 8 + file as int {
                        assert(spec_mb_index(i2) != spec_mb_index(sq as int));
                        assert(bv_at(board@, i2 as u64) == bv_at(vb, i2 as u64));
                        assert(cells0[i2] == bv_at(vb, i2 as u64));
                    }
                }
                assert(Seq::new(64, |i3: int| bv_at(board@, i3 as u64)) =~= cells0.update(
                    rank as int * 8 + file as int,
                    Some(spec_game_piece(piece, team)),
                ));
            }
            file = file + 1;
        }
        k = k + 1;
    }
    if !(rank == 0 && file == 8) {
        proof {
            assert(spec_placement(seg0) is None);
        }
        return None;
    }
    proof {
        assert(spec_placement(seg0) == Some(Seq::new(64, |i2: int| bv_at(board@, i2 as u64))));
        assert(spec_fen_ok(fen@));
        assert forall|sq: u64| sq < 64 implies bv_at(board@, sq) == spec_placement(
            seg0,
        )->Some_0[sq as int] by {}
    }
    Some(board)
}

} // verus!
