//! The square-array engine: an 8-by-8 board of optional pieces with one-based
//! coordinates, move generation by hypothetical application, and material
//! evaluation.

use vstd::prelude::*;
use vstd::string::StrSliceExecFns;
use crate::game::{BoardState, CastlingRights, Coordinates, GameEnding, Move, Piece, PieceType,
    Side, Team, get_opposite_team, spec_opposite_team, spec_update_castling,
    update_castling_state};
use crate::game::moves::{calculate_moves_for_bishop, calculate_moves_for_king,
    calculate_moves_for_knight, calculate_moves_for_pawn, calculate_moves_for_queen,
    calculate_moves_for_rook, is_space_threatened, spec_all_on_board, spec_on_board};

verus! {

/// The 8-by-8 board with its scalar state; coordinates are one-based.
#[derive(Clone, Copy)]
pub struct BoardLogic {
    pub board: [[Option<Piece>; 8]; 8],
    pub state: BoardState,
}

/// The material worth of a piece kind in the square-array evaluation. This
/// evaluator keeps the classic single-digit scale; the bitboard engine's
/// centipawn values live in the engine module.
pub open spec fn spec_cell_value(t: PieceType) -> int {
    match t {
        PieceType::Pawn => 1,
        PieceType::Knight => 3,
        PieceType::Bishop => 3,
        PieceType::Rook => 5,
        PieceType::Queen => 9,
        PieceType::King => 1000,
    }
}

/// The signed worth of a cell for `team`.
pub open spec fn spec_cell_score(c: Option<Piece>, team: Team) -> int {
    match c {
        Some(p) => if p.team == team {
            spec_cell_value(p.piece_type)
        } else {
            -spec_cell_value(p.piece_type)
        },
        None => 0,
    }
}



/// The square-array form of a bitboard-side piece.
pub open spec fn spec_to_array_piece(gp: Option<crate::board::GamePiece>) -> Option<Piece> {
    match gp {
        Some(g) => Some(
            Piece {
                piece_type: {
                    let k = crate::board::spec_piece_kind(g);
                    if k == 0 {
                        PieceType::Pawn
                    } else if k == 1 {
                        PieceType::Bishop
                    } else if k == 2 {
                        PieceType::Knight
                    } else if k == 3 {
                        PieceType::Rook
                    } else if k == 4 {
                        PieceType::Queen
                    } else {
                        PieceType::King
                    }
                },
                team: if crate::board::spec_piece_team(g) == 0 {
                    Team::White
                } else {
                    Team::Black
                },
            },
        ),
        None => None,
    }
}

/// The boolean form of the castling-right bits.
pub open spec fn spec_rights_of_bits(bits: u8) -> CastlingRights {
    CastlingRights {
        white_king_side: bits & 0b0001 != 0,
        white_queen_side: bits & 0b0010 != 0,
        black_king_side: bits & 0b0100 != 0,
        black_queen_side: bits & 0b1000 != 0,
    }
}

/// Where `team`'s king first appears, scanning cells in row-major order
/// from cell `n` on (cell `n` is file `n % 8 + 1`, rank `n / 8 + 1`).
pub open spec fn spec_bl_find_king_from(b: BoardLogic, team: Team, n: int) -> Option<Coordinates>
    decreases 64 - n,
{
    if n < 0 || n >= 64 {
        None
    } else if b.spec_at(n % 8 + 1, n / 8 + 1) == Some(
        Piece { piece_type: PieceType::King, team },
    ) {
        Some(Coordinates { x: (n % 8 + 1) as i8, y: (n / 8 + 1) as i8 })
    } else {
        spec_bl_find_king_from(b, team, n + 1)
    }
}

/// Where `team`'s king first appears on the board, if anywhere.
pub open spec fn spec_bl_find_king(b: BoardLogic, team: Team) -> Option<Coordinates> {
    spec_bl_find_king_from(b, team, 0)
}

/// Whether `team`'s king (the first one found) stands on a threatened square.
pub open spec fn spec_bl_in_check(b: BoardLogic, team: Team) -> bool {
    match spec_bl_find_king(b, team) {
        Some(k) => crate::game::moves::spec_bl_threatened(b, team, k.x as int, k.y as int),
        None => false,
    }
}

/// The piece that is moving.
pub open spec fn spec_bl_mover(b: BoardLogic, cx: i8, cy: i8) -> Piece {
    b.spec_at(cx as int, cy as int)->Some_0
}

/// A pawn reaching its side's end rank: promotion.
pub open spec fn spec_bl_is_promo(b: BoardLogic, cx: i8, cy: i8, fx: i8, fy: i8) -> bool {
    let m = spec_bl_mover(b, cx, cy);
    m.piece_type == PieceType::Pawn && fy as int == (if m.team == Team::White {
        8int
    } else {
        1int
    })
}

/// A king moving two files: castling.
pub open spec fn spec_bl_is_castle(b: BoardLogic, cx: i8, cy: i8, fx: i8, fy: i8) -> bool {
    let m = spec_bl_mover(b, cx, cy);
    m.piece_type == PieceType::King && (fx == cx + 2 || fx + 2 == cx)
}

/// A pawn advancing two ranks.
pub open spec fn spec_bl_is_double(b: BoardLogic, cx: i8, cy: i8, fx: i8, fy: i8) -> bool {
    let m = spec_bl_mover(b, cx, cy);
    m.piece_type == PieceType::Pawn && (fy == cy + 2 || fy + 2 == cy)
}

/// A pawn moving to another file onto an empty square while an opposing pawn
/// stands beside it: the en-passant capture.
pub open spec fn spec_bl_is_ep(b: BoardLogic, cx: i8, cy: i8, fx: i8, fy: i8) -> bool {
    let m = spec_bl_mover(b, cx, cy);
    &&& m.piece_type == PieceType::Pawn
    &&& fx != cx
    &&& b.spec_at(fx as int, fy as int) is None
    &&& (match b.spec_at(fx as int, cy as int) {
        Some(v) => v.piece_type == PieceType::Pawn && v.team != m.team,
        None => false,
    })
}

/// The file the castling rook starts on.
pub open spec fn spec_bl_rook_from_x(cx: i8, fx: i8) -> i8 {
    if fx > cx {
        8i8
    } else {
        1i8
    }
}

/// The file the castling rook lands on.
pub open spec fn spec_bl_rook_to_x(cx: i8, fx: i8) -> i8 {
    if fx > cx {
        6i8
    } else {
        4i8
    }
}

/// The conditions under which the move is applied: a piece stands on the
/// origin, the target is a different square not held by the mover's side,
/// and a castling shape starts on the king's file and stays on its rank.
pub open spec fn spec_bl_play_ok(b: BoardLogic, cx: i8, cy: i8, fx: i8, fy: i8) -> bool {
    &&& b.spec_at(cx as int, cy as int) is Some
    &&& (cx != fx || cy != fy)
    &&& (match b.spec_at(fx as int, fy as int) {
        Some(t) => t.team != spec_bl_mover(b, cx, cy).team,
        None => true,
    })
    &&& (spec_bl_is_castle(b, cx, cy, fx, fy) ==> cx == 5 && fy == cy)
}

/// The piece standing on the target after the move: the mover, or a queen
/// when a pawn promotes.
pub open spec fn spec_bl_landing(b: BoardLogic, cx: i8, cy: i8, fx: i8, fy: i8) -> Piece {
    let m = spec_bl_mover(b, cx, cy);
    if spec_bl_is_promo(b, cx, cy, fx, fy) {
        Piece { piece_type: PieceType::Queen, team: m.team }
    } else {
        m
    }
}

/// The castling rights after the move: a king move withdraws both of the
/// mover's rights; a rook leaving a corner of its start rank withdraws that
/// wing's right.
pub open spec fn spec_bl_new_castling(b: BoardLogic, cx: i8, cy: i8, fx: i8, fy: i8)
    -> CastlingRights {
    let m = spec_bl_mover(b, cx, cy);
    let c0 = b.state.castling;
    if m.piece_type == PieceType::King {
        if m.team == Team::White {
            CastlingRights { white_king_side: false, white_queen_side: false, ..c0 }
        } else {
            CastlingRights { black_king_side: false, black_queen_side: false, ..c0 }
        }
    } else if m.piece_type == PieceType::Rook && cy as int == (if m.team == Team::White {
        1int
    } else {
        8int
    }) && (cx == 1 || cx == 8) {
        spec_update_castling(
            c0,
            m.team,
            if cx < 5 {
                Side::QueenSide
            } else {
                Side::KingSide
            },
            false,
        )
    } else {
        c0
    }
}

/// The en-passant target after the move: the skipped square of a double
/// push, nothing otherwise.
pub open spec fn spec_bl_new_ep(b: BoardLogic, cx: i8, cy: i8, fx: i8, fy: i8) -> Option<
    Coordinates,
> {
    if spec_bl_is_double(b, cx, cy, fx, fy) {
        Some(
            Coordinates {
                x: cx,
                y: (fy as int - (if spec_bl_mover(b, cx, cy).team == Team::White {
                    1int
                } else {
                    -1int
                })) as i8,
            },
        )
    } else {
        None
    }
}

/// The record the move produces, before any check or ending judgement.
pub open spec fn spec_bl_record(b: BoardLogic, cx: i8, cy: i8, fx: i8, fy: i8) -> Move {
    Move {
        piece: spec_bl_mover(b, cx, cy),
        from: Coordinates { x: cx, y: cy },
        to: Coordinates { x: fx, y: fy },
        check: false,
        capture: b.spec_at(fx as int, fy as int) is Some || spec_bl_is_ep(b, cx, cy, fx, fy),
        castle: spec_bl_is_castle(b, cx, cy, fx, fy),
        ending: None,
        en_passant: spec_bl_is_ep(b, cx, cy, fx, fy),
        promotion: spec_bl_is_promo(b, cx, cy, fx, fy),
    }
}

/// Whether (x2, y2) is one of the squares the move writes: origin, target,
/// the passed pawn's square on en passant, or the rook's two squares on
/// castling.
pub open spec fn spec_bl_touched(b: BoardLogic, cx: i8, cy: i8, fx: i8, fy: i8, x2: int, y2: int)
    -> bool {
    ||| (x2 == cx as int && y2 == cy as int)
    ||| (x2 == fx as int && y2 == fy as int)
    ||| (spec_bl_is_ep(b, cx, cy, fx, fy) && x2 == fx as int && y2 == cy as int)
    ||| (spec_bl_is_castle(b, cx, cy, fx, fy) && y2 == cy as int && (x2 == spec_bl_rook_from_x(
        cx,
        fx,
    ) as int || x2 == spec_bl_rook_to_x(cx, fx) as int))
}

/// What the move does to the board and the scalar state, stated for a board
/// `b0` and a record produced from it.
pub open spec fn spec_bl_applied(
    b0: BoardLogic,
    b1: BoardLogic,
    cx: i8,
    cy: i8,
    fx: i8,
    fy: i8,
) -> bool {
    &&& b1.spec_at(fx as int, fy as int) == Some(spec_bl_landing(b0, cx, cy, fx, fy))
    &&& b1.spec_at(cx as int, cy as int) is None
    &&& (spec_bl_is_ep(b0, cx, cy, fx, fy) ==> b1.spec_at(fx as int, cy as int) is None)
    &&& (spec_bl_is_castle(b0, cx, cy, fx, fy) ==> {
        let rfx = spec_bl_rook_from_x(cx, fx) as int;
        let rtx = spec_bl_rook_to_x(cx, fx) as int;
        match b0.spec_at(rfx, cy as int) {
            Some(rp) => b1.spec_at(rtx, cy as int) == Some(rp) && b1.spec_at(rfx, cy as int)
                is None,
            None => b1.spec_at(rtx, cy as int) == b0.spec_at(rtx, cy as int) && b1.spec_at(
                rfx,
                cy as int,
            ) == b0.spec_at(rfx, cy as int),
        }
    })
    &&& forall|x2: int, y2: int|
        spec_on_board(x2, y2) && !spec_bl_touched(b0, cx, cy, fx, fy, x2, y2)
            ==> #[trigger] b1.spec_at(x2, y2) == b0.spec_at(x2, y2)
    &&& b1.state.castling == spec_bl_new_castling(b0, cx, cy, fx, fy)
    &&& b1.state.en_passant_target_square == spec_bl_new_ep(b0, cx, cy, fx, fy)
    &&& b1.state.team_to_play == spec_opposite_team(spec_bl_mover(b0, cx, cy).team)
    &&& b1.state.ending == b0.state.ending
}


/// The movement-pattern destinations of a piece kind from (x, y).
pub open spec fn spec_bl_piece_dests(
    b: BoardLogic,
    team: Team,
    x: i8,
    y: i8,
    kind: PieceType,
    c: Coordinates,
    threats_only: bool,
) -> bool {
    match kind {
        PieceType::King => crate::game::moves::spec_king_move_shape(
            b,
            team,
            x as int,
            y as int,
            c,
        ),
        PieceType::Queen => crate::game::moves::spec_bl_rook_dest(b, team, x as int, y as int, c)
            || crate::game::moves::spec_bl_bishop_dest(b, team, x as int, y as int, c),
        PieceType::Rook => crate::game::moves::spec_bl_rook_dest(b, team, x as int, y as int, c),
        PieceType::Bishop => crate::game::moves::spec_bl_bishop_dest(
            b,
            team,
            x as int,
            y as int,
            c,
        ),
        PieceType::Knight => crate::game::moves::spec_knight_move_shape(
            b,
            team,
            x as int,
            y as int,
            c,
        ),
        PieceType::Pawn => crate::game::moves::spec_pawn_move_shape(
            b,
            team,
            x as int,
            y as int,
            c,
            threats_only,
        ),
    }
}

/// A legal move of the piece on (x, y): a movement-pattern destination the
/// board accepts, after which the mover's king stands unthreatened.
pub open spec fn spec_bl_kept_move(
    b: BoardLogic,
    piece: Piece,
    x: i8,
    y: i8,
    c: Coordinates,
    threats_only: bool,
) -> bool {
    &&& spec_bl_piece_dests(b, piece.team, x, y, piece.piece_type, c, threats_only)
    &&& spec_bl_play_ok(b, x, y, c.x, c.y)
    &&& forall|b2: BoardLogic|
        #[trigger] spec_bl_applied(b, b2, x, y, c.x, c.y) ==> !spec_bl_in_check(b2, piece.team)
}

/// A record the legality filter emits for the piece on (x, y): the record of
/// some kept move.
pub open spec fn spec_bl_hyp_move(
    b: BoardLogic,
    piece: Piece,
    x: i8,
    y: i8,
    mv: Move,
    threats_only: bool,
) -> bool {
    exists|c: Coordinates|
        #[trigger] spec_bl_kept_move(b, piece, x, y, c, threats_only) && mv == spec_bl_record(
            b,
            x,
            y,
            c.x,
            c.y,
        )
}

/// A record the team's move list holds: some piece of the side emits it.
pub open spec fn spec_bl_team_move(b: BoardLogic, team: Team, mv: Move) -> bool {
    exists|x: i8, y: i8|
        #![trigger spec_bl_hyp_move(b, b.spec_at(x as int, y as int)->Some_0, x, y, mv, false)]
        spec_on_board(x as int, y as int) && b.spec_at(x as int, y as int) is Some && b.spec_at(
            x as int,
            y as int,
        )->Some_0.team == team && spec_bl_hyp_move(
            b,
            b.spec_at(x as int, y as int)->Some_0,
            x,
            y,
            mv,
            false,
        )
}

/// Whether the side has any kept move.
pub open spec fn spec_bl_has_move(b: BoardLogic, team: Team) -> bool {
    exists|x: i8, y: i8, c: Coordinates|
        #![trigger spec_bl_kept_move(b, b.spec_at(x as int, y as int)->Some_0, x, y, c, false)]
        spec_on_board(x as int, y as int) && b.spec_at(x as int, y as int) is Some && b.spec_at(
            x as int,
            y as int,
        )->Some_0.team == team && spec_bl_kept_move(
            b,
            b.spec_at(x as int, y as int)->Some_0,
            x,
            y,
            c,
            false,
        )
}

/// The ending judgement for `team` on `b`: nothing while it has a reply,
/// else checkmate under check and stalemate otherwise.
pub open spec fn spec_bl_ending(b: BoardLogic, team: Team, check: bool) -> Option<GameEnding> {
    if spec_bl_has_move(b, team) {
        None
    } else if check {
        Some(GameEnding::Checkmate)
    } else {
        Some(GameEnding::Stalemate)
    }
}

/// A square some piece of the other side could move or threaten into.
pub open spec fn spec_bl_threat_space(b: BoardLogic, team: Team, c: Coordinates) -> bool {
    exists|x: i8, y: i8|
        #![trigger spec_bl_piece_dests(b, b.spec_at(x as int, y as int)->Some_0.team, x, y, b.spec_at(x as int, y as int)->Some_0.piece_type, c, true)]
        spec_on_board(x as int, y as int) && b.spec_at(x as int, y as int) is Some && b.spec_at(
            x as int,
            y as int,
        )->Some_0.team != team && spec_bl_piece_dests(
            b,
            b.spec_at(x as int, y as int)->Some_0.team,
            x,
            y,
            b.spec_at(x as int, y as int)->Some_0.piece_type,
            c,
            true,
        )
}

/// The applied-move relation determines the resulting board.
pub proof fn lemma_bl_applied_unique(
    b0: BoardLogic,
    b1: BoardLogic,
    b2: BoardLogic,
    cx: i8,
    cy: i8,
    fx: i8,
    fy: i8,
)
    requires
        spec_on_board(cx as int, cy as int),
        spec_on_board(fx as int, fy as int),
        spec_bl_play_ok(b0, cx, cy, fx, fy),
        spec_bl_applied(b0, b1, cx, cy, fx, fy),
        spec_bl_applied(b0, b2, cx, cy, fx, fy),
    ensures
        b1 == b2,
{
    broadcast use vstd::array::axiom_array_ext_equal;

    assert forall|x2: int, y2: int| spec_on_board(x2, y2) implies b1.spec_at(x2, y2) == b2.spec_at(
        x2,
        y2,
    ) by {
        if !spec_bl_touched(b0, cx, cy, fx, fy, x2, y2) {
            assert(b1.spec_at(x2, y2) == b0.spec_at(x2, y2));
            assert(b2.spec_at(x2, y2) == b0.spec_at(x2, y2));
        }
    }
    assert forall|r: int| 0 <= r < 8 implies b1.board@[r] == b2.board@[r] by {
        assert forall|cidx: int| 0 <= cidx < 8 implies b1.board@[r][cidx] == b2.board@[r][cidx] by {
            assert(b1.spec_at(cidx + 1, r + 1) == b2.spec_at(cidx + 1, r + 1));
        }
        assert(b1.board@[r] =~= b2.board@[r]);
    }
    assert(b1.board =~= b2.board);
    assert(b1.state == b2.state);
}

impl BoardLogic {
    /// The piece standing on the one-based coordinate (x, y).
    pub open spec fn spec_at(self, x: int, y: int) -> Option<Piece> {
        self.board@[y - 1]@[x - 1]
    }

    /// The material balance over the first `n` cells in row-major order.
    pub open spec fn spec_eval_upto(self, team: Team, n: int) -> int
        decreases n,
    {
        if n <= 0 {
            0
        } else {
            self.spec_eval_upto(team, n - 1) + spec_cell_score(
                self.spec_at((n - 1) % 8 + 1, (n - 1) / 8 + 1),
                team,
            )
        }
    }

    pub fn new(board: [[Option<Piece>; 8]; 8], state: BoardState) -> (r: Self)
        ensures
            r.board == board,
            r.state == state,
    {
        Self { board, state }
    }

    pub fn get_piece_at(&self, x: i8, y: i8) -> (r: Option<Piece>)
        requires
            spec_on_board(x as int, y as int),
        ensures
            r == self.spec_at(x as int, y as int),
    {
        self.board[(y - 1) as usize][(x - 1) as usize]
    }

    /// Writes one cell.
    fn set_cell(&mut self, x: i8, y: i8, p: Option<Piece>)
        requires
            spec_on_board(x as int, y as int),
        ensures
            final(self).spec_at(x as int, y as int) == p,
            forall|x2: int, y2: int|
                spec_on_board(x2, y2) && !(x2 == x && y2 == y) ==> #[trigger] final(self).spec_at(
                    x2,
                    y2,
                ) == old(self).spec_at(x2, y2),
            final(self).state == old(self).state,
    {
        let mut row = self.board[(y - 1) as usize];
        row[(x - 1) as usize] = p;
        self.board[(y - 1) as usize] = row;
    }

    pub fn is_position_valid(&self, x: i8, y: i8) -> (r: bool)
        ensures
            r == spec_on_board(x as int, y as int),
    {
        x > 0 && x <= 8 && y > 0 && y <= 8
    }

    /// Every legal move of `team`: the list holds exactly the records of the
    /// side's kept moves, and each stays on the board.
    pub fn get_all_moves_for_team(&self, team: Team) -> (r: Vec<Move>)
        ensures
            forall|i: int|
                0 <= i < r.len() ==> spec_on_board(
                    (#[trigger] r[i]).from.x as int,
                    r[i].from.y as int,
                ) && spec_on_board(r[i].to.x as int, r[i].to.y as int),
            forall|i: int| 0 <= i < r.len() ==> spec_bl_team_move(*self, team, #[trigger] r[i]),
            forall|x: i8, y: i8, cx: i8, cy: i8|
                spec_on_board(x as int, y as int) && self.spec_at(x as int, y as int) is Some
                    && self.spec_at(x as int, y as int)->Some_0.team == team
                    && #[trigger] spec_bl_kept_move(
                    *self,
                    self.spec_at(x as int, y as int)->Some_0,
                    x,
                    y,
                    Coordinates { x: cx, y: cy },
                    false,
                ) ==> r@.contains(spec_bl_record(*self, x, y, cx, cy)),
    {
        let mut moves: Vec<Move> = Vec::new();
        let mut y: i8 = 1;
        while y <= 8
            invariant
                1 <= y <= 9,
                forall|i: int|
                    0 <= i < moves.len() ==> spec_on_board(
                        (#[trigger] moves[i]).from.x as int,
                        moves[i].from.y as int,
                    ) && spec_on_board(moves[i].to.x as int, moves[i].to.y as int),
                forall|i: int|
                    0 <= i < moves.len() ==> spec_bl_team_move(*self, team, #[trigger] moves[i]),
                forall|x2: i8, y2: i8, cx: i8, cy: i8|
                    spec_on_board(x2 as int, y2 as int) && y2 < y && self.spec_at(
                        x2 as int,
                        y2 as int,
                    ) is Some && self.spec_at(x2 as int, y2 as int)->Some_0.team == team
                        && #[trigger] spec_bl_kept_move(
                        *self,
                        self.spec_at(x2 as int, y2 as int)->Some_0,
                        x2,
                        y2,
                        Coordinates { x: cx, y: cy },
                        false,
                    ) ==> moves@.contains(spec_bl_record(*self, x2, y2, cx, cy)),
            decreases 9 - y,
        {
            let mut x: i8 = 1;
            while x <= 8
                invariant
                    1 <= x <= 9,
                    1 <= y <= 8,
                    forall|i: int|
                        0 <= i < moves.len() ==> spec_on_board(
                            (#[trigger] moves[i]).from.x as int,
                            moves[i].from.y as int,
                        ) && spec_on_board(moves[i].to.x as int, moves[i].to.y as int),
                    forall|i: int|
                        0 <= i < moves.len() ==> spec_bl_team_move(*self, team, #[trigger] moves[i]),
                    forall|x2: i8, y2: i8, cx: i8, cy: i8|
                        spec_on_board(x2 as int, y2 as int) && (y2 < y || (y2 == y && x2 < x))
                            && self.spec_at(x2 as int, y2 as int) is Some && self.spec_at(
                            x2 as int,
                            y2 as int,
                        )->Some_0.team == team && #[trigger] spec_bl_kept_move(
                            *self,
                            self.spec_at(x2 as int, y2 as int)->Some_0,
                            x2,
                            y2,
                            Coordinates { x: cx, y: cy },
                            false,
                        ) ==> moves@.contains(spec_bl_record(*self, x2, y2, cx, cy)),
                decreases 9 - x,
            {
                if let Some(piece) = self.get_piece_at(x, y) {
                    if piece.team == team {
                        let extra = self.hypothetically_calculate_moves_for(x, y, piece, false);
                        let mut k: usize = 0;
                        while k < extra.len()
                            invariant
                                k <= extra.len(),
                                1 <= x <= 8,
                                1 <= y <= 8,
                                self.spec_at(x as int, y as int) == Some(piece),
                                piece.team == team,
                                forall|i: int|
                                    0 <= i < extra.len() ==> spec_on_board(
                                        (#[trigger] extra[i]).from.x as int,
                                        extra[i].from.y as int,
                                    ) && spec_on_board(extra[i].to.x as int, extra[i].to.y as int),
                                forall|i: int|
                                    0 <= i < extra.len() ==> spec_bl_hyp_move(
                                        *self,
                                        piece,
                                        x,
                                        y,
                                        #[trigger] extra[i],
                                        false,
                                    ),
                                forall|i: int|
                                    0 <= i < moves.len() ==> spec_on_board(
                                        (#[trigger] moves[i]).from.x as int,
                                        moves[i].from.y as int,
                                    ) && spec_on_board(moves[i].to.x as int, moves[i].to.y as int),
                                forall|i: int|
                                    0 <= i < moves.len() ==> spec_bl_team_move(
                                        *self,
                                        team,
                                        #[trigger] moves[i],
                                    ),
                                forall|x2: i8, y2: i8, cx: i8, cy: i8|
                                    spec_on_board(x2 as int, y2 as int) && (y2 < y || (y2 == y && x2
                                        < x)) && self.spec_at(x2 as int, y2 as int) is Some
                                        && self.spec_at(x2 as int, y2 as int)->Some_0.team == team
                                        && #[trigger] spec_bl_kept_move(
                                        *self,
                                        self.spec_at(x2 as int, y2 as int)->Some_0,
                                        x2,
                                        y2,
                                        Coordinates { x: cx, y: cy },
                                        false,
                                    ) ==> moves@.contains(spec_bl_record(*self, x2, y2, cx, cy)),
                                forall|i: int| 0 <= i < k ==> moves@.contains(#[trigger] extra[i]),
                            decreases extra.len() - k,
                        {
                            let ghost moves0 = moves@;
                            let mv = extra[k];
                            moves.push(mv);
                            proof {
                                assert(spec_bl_team_move(*self, team, mv)) by {
                                    assert(self.spec_at(x as int, y as int)->Some_0 == piece);
                                    assert(spec_bl_hyp_move(
                                        *self,
                                        self.spec_at(x as int, y as int)->Some_0,
                                        x,
                                        y,
                                        mv,
                                        false,
                                    ));
                                }
                                assert forall|cc: Move| moves0.contains(cc) implies moves@.contains(
                                    cc,
                                ) by {
                                    let i2 = choose|i2: int|
                                        0 <= i2 < moves0.len() && moves0[i2] == cc;
                                    assert(moves@[i2] == cc);
                                }
                                assert forall|i2: int| 0 <= i2 < k + 1 implies moves@.contains(
                                    #[trigger] extra[i2],
                                ) by {
                                    if i2 == k {
                                        assert(moves@[moves@.len() - 1] == extra[i2]);
                                    } else {
                                        assert(moves0.contains(extra[i2]));
                                        let j2 = choose|j2: int|
                                            0 <= j2 < moves0.len() && moves0[j2] == extra[i2];
                                        assert(moves@[j2] == extra[i2]);
                                    }
                                }
                            }
                            k = k + 1;
                        }
                        proof {
                            assert forall|cx: i8, cy: i8|
                                #[trigger] spec_bl_kept_move(
                                    *self,
                                    piece,
                                    x,
                                    y,
                                    Coordinates { x: cx, y: cy },
                                    false,
                                ) implies moves@.contains(spec_bl_record(*self, x, y, cx, cy)) by {
                                assert(extra@.contains(spec_bl_record(*self, x, y, cx, cy)));
                                let i2 = choose|i2: int|
                                    0 <= i2 < extra@.len() && extra@[i2] == spec_bl_record(
                                        *self,
                                        x,
                                        y,
                                        cx,
                                        cy,
                                    );
                                assert(moves@.contains(extra[i2]));
                            }
                        }
                    }
                }
                x = x + 1;
            }
            y = y + 1;
        }
        moves
    }

    /// The capturing legal moves of `team`: exactly the records of the
    /// side's kept moves that capture.
    pub fn get_all_capture_moves_for_team(&self, team: Team) -> (r: Vec<Move>)
        ensures
            forall|i: int|
                0 <= i < r.len() ==> (#[trigger] r[i]).capture && spec_on_board(
                    r[i].from.x as int,
                    r[i].from.y as int,
                ) && spec_on_board(r[i].to.x as int, r[i].to.y as int),
            forall|i: int| 0 <= i < r.len() ==> spec_bl_team_move(*self, team, #[trigger] r[i]),
            forall|x: i8, y: i8, cx: i8, cy: i8|
                spec_on_board(x as int, y as int) && self.spec_at(x as int, y as int) is Some
                    && self.spec_at(x as int, y as int)->Some_0.team == team
                    && #[trigger] spec_bl_kept_move(
                    *self,
                    self.spec_at(x as int, y as int)->Some_0,
                    x,
                    y,
                    Coordinates { x: cx, y: cy },
                    false,
                ) && spec_bl_record(*self, x, y, cx, cy).capture ==> r@.contains(
                    spec_bl_record(*self, x, y, cx, cy),
                ),
    {
        let all = self.get_all_moves_for_team(team);
        let mut moves: Vec<Move> = Vec::new();
        let mut i: usize = 0;
        while i < all.len()
            invariant
                i <= all.len(),
                forall|j: int|
                    0 <= j < all.len() ==> spec_on_board(
                        (#[trigger] all[j]).from.x as int,
                        all[j].from.y as int,
                    ) && spec_on_board(all[j].to.x as int, all[j].to.y as int),
                forall|j: int|
                    0 <= j < all.len() ==> spec_bl_team_move(*self, team, #[trigger] all[j]),
                forall|j: int|
                    0 <= j < moves.len() ==> (#[trigger] moves[j]).capture && spec_on_board(
                        moves[j].from.x as int,
                        moves[j].from.y as int,
                    ) && spec_on_board(moves[j].to.x as int, moves[j].to.y as int),
                forall|j: int|
                    0 <= j < moves.len() ==> spec_bl_team_move(*self, team, #[trigger] moves[j]),
                forall|j: int|
                    0 <= j < i && (#[trigger] all[j]).capture ==> moves@.contains(all[j]),
            decreases all.len() - i,
        {
            let ghost moves0 = moves@;
            if all[i].capture {
                moves.push(all[i]);
            }
            proof {
                assert forall|j: int| 0 <= j < i + 1 && (#[trigger] all[j]).capture implies moves@.contains(
                    all[j],
                ) by {
                    if j == i {
                        assert(moves@[moves@.len() - 1] == all[j]);
                    } else {
                        assert(moves0.contains(all[j]));
                        let k = choose|k: int| 0 <= k < moves0.len() && moves0[k] == all[j];
                        assert(moves@[k] == all[j]);
                    }
                }
            }
            i = i + 1;
        }
        proof {
            assert forall|x: i8, y: i8, cx: i8, cy: i8|
                spec_on_board(x as int, y as int) && self.spec_at(x as int, y as int) is Some
                    && self.spec_at(x as int, y as int)->Some_0.team == team
                    && #[trigger] spec_bl_kept_move(
                    *self,
                    self.spec_at(x as int, y as int)->Some_0,
                    x,
                    y,
                    Coordinates { x: cx, y: cy },
                    false,
                ) && spec_bl_record(*self, x, y, cx, cy).capture implies moves@.contains(
                spec_bl_record(*self, x, y, cx, cy),
            ) by {
                assert(all@.contains(spec_bl_record(*self, x, y, cx, cy)));
                let j = choose|j: int|
                    0 <= j < all@.len() && all@[j] == spec_bl_record(*self, x, y, cx, cy);
                assert(all[j].capture);
                assert(moves@.contains(all[j]));
            }
        }
        moves
    }

    /// Every movement-pattern destination (with pawn threats) of the other
    /// side's pieces: the list holds exactly those squares.
    pub fn get_threatened_spaces(&self, team: Team) -> (r: Vec<Coordinates>)
        ensures
            spec_all_on_board(r@),
            forall|i: int|
                0 <= i < r.len() ==> spec_bl_threat_space(*self, team, #[trigger] r[i]),
            forall|x: i8, y: i8, cx: i8, cy: i8|
                spec_on_board(x as int, y as int) && self.spec_at(x as int, y as int) is Some
                    && self.spec_at(x as int, y as int)->Some_0.team != team
                    && #[trigger] spec_bl_piece_dests(
                    *self,
                    self.spec_at(x as int, y as int)->Some_0.team,
                    x,
                    y,
                    self.spec_at(x as int, y as int)->Some_0.piece_type,
                    Coordinates { x: cx, y: cy },
                    true,
                ) ==> r@.contains(Coordinates { x: cx, y: cy }),
    {
        let mut spaces: Vec<Coordinates> = Vec::new();
        let mut y: i8 = 1;
        while y <= 8
            invariant
                1 <= y <= 9,
                spec_all_on_board(spaces@),
                forall|i: int|
                    0 <= i < spaces.len() ==> spec_bl_threat_space(*self, team, #[trigger] spaces[i]),
                forall|x2: i8, y2: i8, cx: i8, cy: i8|
                    spec_on_board(x2 as int, y2 as int) && y2 < y && self.spec_at(
                        x2 as int,
                        y2 as int,
                    ) is Some && self.spec_at(x2 as int, y2 as int)->Some_0.team != team
                        && #[trigger] spec_bl_piece_dests(
                        *self,
                        self.spec_at(x2 as int, y2 as int)->Some_0.team,
                        x2,
                        y2,
                        self.spec_at(x2 as int, y2 as int)->Some_0.piece_type,
                        Coordinates { x: cx, y: cy },
                        true,
                    ) ==> spaces@.contains(Coordinates { x: cx, y: cy }),
            decreases 9 - y,
        {
            let mut x: i8 = 1;
            while x <= 8
                invariant
                    1 <= x <= 9,
                    1 <= y <= 8,
                    spec_all_on_board(spaces@),
                    forall|i: int|
                        0 <= i < spaces.len() ==> spec_bl_threat_space(*self, team, #[trigger] spaces[i]),
                    forall|x2: i8, y2: i8, cx: i8, cy: i8|
                        spec_on_board(x2 as int, y2 as int) && (y2 < y || (y2 == y && x2 < x))
                            && self.spec_at(x2 as int, y2 as int) is Some && self.spec_at(
                            x2 as int,
                            y2 as int,
                        )->Some_0.team != team && #[trigger] spec_bl_piece_dests(
                            *self,
                            self.spec_at(x2 as int, y2 as int)->Some_0.team,
                            x2,
                            y2,
                            self.spec_at(x2 as int, y2 as int)->Some_0.piece_type,
                            Coordinates { x: cx, y: cy },
                            true,
                        ) ==> spaces@.contains(Coordinates { x: cx, y: cy }),
                decreases 9 - x,
            {
                if let Some(piece) = self.get_piece_at(x, y) {
                    if piece.team != team {
                        let extra = self.optimistically_calculate_piece_moves(x, y, piece, true);
                        let mut k: usize = 0;
                        while k < extra.len()
                            invariant
                                k <= extra.len(),
                                1 <= x <= 8,
                                1 <= y <= 8,
                                self.spec_at(x as int, y as int) == Some(piece),
                                piece.team != team,
                                spec_all_on_board(extra@),
                                spec_all_on_board(spaces@),
                                forall|i: int|
                                    0 <= i < extra.len() ==> spec_bl_piece_dests(
                                        *self,
                                        piece.team,
                                        x,
                                        y,
                                        piece.piece_type,
                                        #[trigger] extra[i],
                                        true,
                                    ),
                                forall|i: int|
                                    0 <= i < spaces.len() ==> spec_bl_threat_space(*self, team, #[trigger] spaces[i]),
                                forall|x2: i8, y2: i8, cx: i8, cy: i8|
                                    spec_on_board(x2 as int, y2 as int) && (y2 < y || (y2 == y && x2
                                        < x)) && self.spec_at(x2 as int, y2 as int) is Some
                                        && self.spec_at(x2 as int, y2 as int)->Some_0.team != team
                                        && #[trigger] spec_bl_piece_dests(
                                        *self,
                                        self.spec_at(x2 as int, y2 as int)->Some_0.team,
                                        x2,
                                        y2,
                                        self.spec_at(x2 as int, y2 as int)->Some_0.piece_type,
                                        Coordinates { x: cx, y: cy },
                                        true,
                                    ) ==> spaces@.contains(Coordinates { x: cx, y: cy }),
                                forall|i: int| 0 <= i < k ==> spaces@.contains(#[trigger] extra[i]),
                            decreases extra.len() - k,
                        {
                            let ghost spaces0 = spaces@;
                            let c = extra[k];
                            spaces.push(c);
                            proof {
                                assert(self.spec_at(x as int, y as int)->Some_0 == piece);
                                assert(spec_bl_piece_dests(
                                    *self,
                                    self.spec_at(x as int, y as int)->Some_0.team,
                                    x,
                                    y,
                                    self.spec_at(x as int, y as int)->Some_0.piece_type,
                                    spaces@[spaces@.len() - 1],
                                    true,
                                ));
                                assert(spec_bl_threat_space(
                                    *self,
                                    team,
                                    spaces@[spaces@.len() - 1],
                                ));
                                assert forall|cc: Coordinates| spaces0.contains(cc) implies spaces@.contains(
                                    cc,
                                ) by {
                                    let i2 = choose|i2: int|
                                        0 <= i2 < spaces0.len() && spaces0[i2] == cc;
                                    assert(spaces@[i2] == cc);
                                }
                                assert forall|i2: int| 0 <= i2 < k + 1 implies spaces@.contains(
                                    #[trigger] extra[i2],
                                ) by {
                                    if i2 == k {
                                        assert(spaces@[spaces@.len() - 1] == extra[i2]);
                                    } else {
                                        assert(spaces0.contains(extra[i2]));
                                        let j2 = choose|j2: int|
                                            0 <= j2 < spaces0.len() && spaces0[j2] == extra[i2];
                                        assert(spaces@[j2] == extra[i2]);
                                    }
                                }
                            }
                            k = k + 1;
                        }
                        proof {
                            assert forall|cx: i8, cy: i8|
                                #[trigger] spec_bl_piece_dests(
                                    *self,
                                    piece.team,
                                    x,
                                    y,
                                    piece.piece_type,
                                    Coordinates { x: cx, y: cy },
                                    true,
                                ) implies spaces@.contains(Coordinates { x: cx, y: cy }) by {
                                assert(extra@.contains(Coordinates { x: cx, y: cy }));
                                let i2 = choose|i2: int|
                                    0 <= i2 < extra@.len() && extra@[i2] == Coordinates {
                                        x: cx,
                                        y: cy,
                                    };
                                assert(spaces@.contains(extra[i2]));
                            }
                        }
                    }
                }
                x = x + 1;
            }
            y = y + 1;
        }
        spaces
    }

    pub fn is_castling_available(&self, team: Team) -> (r: bool)
        ensures
            r == match team {
                Team::White => self.state.castling.white_king_side
                    || self.state.castling.white_queen_side,
                Team::Black => self.state.castling.black_king_side
                    || self.state.castling.black_queen_side,
            },
    {
        match team {
            Team::White => self.state.castling.white_king_side
                || self.state.castling.white_queen_side,
            Team::Black => self.state.castling.black_king_side
                || self.state.castling.black_queen_side,
        }
    }

    /// The wing a file belongs to.
    pub fn get_side(&self, x: i8) -> (r: Side)
        ensures
            r == if x < 5 {
                Side::QueenSide
            } else {
                Side::KingSide
            },
    {
        if x < 5 {
            Side::QueenSide
        } else {
            Side::KingSide
        }
    }

    /// The rank direction `team`'s pawns advance in.
    pub fn get_y_orientation(&self, team: Team) -> (r: i8)
        ensures
            r == if team == Team::White {
                1i8
            } else {
                -1i8
            },
    {
        if team == Team::White {
            1
        } else {
            -1
        }
    }

    /// The rank `team`'s pieces start on.
    pub fn get_board_y_start_for_team(&self, team: Team) -> (r: i8)
        ensures
            r == if team == Team::White {
                1i8
            } else {
                8i8
            },
    {
        if team == Team::White {
            1
        } else {
            8
        }
    }

    /// The rank `team`'s pawns promote on.
    pub fn get_board_y_end_for_team(&self, team: Team) -> (r: i8)
        ensures
            r == if team == Team::White {
                8i8
            } else {
                1i8
            },
    {
        if team == Team::White {
            8
        } else {
            1
        }
    }

    /// Whether `team`'s king (the first one found) stands on a square some
    /// opposing piece could capture into.
    pub fn is_team_in_check(&self, team: Team) -> (r: bool)
        ensures
            r == spec_bl_in_check(*self, team),
    {
        match self.find_king(team) {
            Some(king) => is_space_threatened(&king, self, team),
            None => false,
        }
    }

    /// How the game stands for the opponent of the side to move: checkmate
    /// when it is in check with no legal reply, stalemate with no reply and
    /// no check, nothing while it has a reply. A supplied `check` stands in
    /// for the check test.
    pub fn get_game_ending(&self, check: Option<bool>) -> (r: Option<GameEnding>)
        ensures
            r == spec_bl_ending(
                *self,
                spec_opposite_team(self.state.team_to_play),
                match check {
                    Some(c) => c,
                    None => spec_bl_in_check(*self, spec_opposite_team(self.state.team_to_play)),
                },
            ),
    {
        let opponent = get_opposite_team(self.state.team_to_play);
        let moves = self.get_all_moves_for_team(opponent);
        let possible_moves = moves.len();
        proof {
            if possible_moves != 0 {
                assert(spec_bl_team_move(*self, opponent, moves[0]));
                let (x, y) = choose|x: i8, y: i8|
                    #![trigger spec_bl_hyp_move(*self, self.spec_at(x as int, y as int)->Some_0, x, y, moves[0], false)]
                    spec_on_board(x as int, y as int) && self.spec_at(x as int, y as int) is Some
                        && self.spec_at(x as int, y as int)->Some_0.team == opponent
                        && spec_bl_hyp_move(
                        *self,
                        self.spec_at(x as int, y as int)->Some_0,
                        x,
                        y,
                        moves[0],
                        false,
                    );
                let c = choose|c: Coordinates|
                    #[trigger] spec_bl_kept_move(
                        *self,
                        self.spec_at(x as int, y as int)->Some_0,
                        x,
                        y,
                        c,
                        false,
                    ) && moves[0] == spec_bl_record(*self, x, y, c.x, c.y);
                assert(spec_bl_has_move(*self, opponent));
            } else {
                if spec_bl_has_move(*self, opponent) {
                    let (x, y, c) = choose|x: i8, y: i8, c: Coordinates|
                        #![trigger spec_bl_kept_move(*self, self.spec_at(x as int, y as int)->Some_0, x, y, c, false)]
                        spec_on_board(x as int, y as int) && self.spec_at(
                            x as int,
                            y as int,
                        ) is Some && self.spec_at(x as int, y as int)->Some_0.team == opponent
                            && spec_bl_kept_move(
                            *self,
                            self.spec_at(x as int, y as int)->Some_0,
                            x,
                            y,
                            c,
                            false,
                        );
                    assert(moves@.contains(spec_bl_record(*self, x, y, c.x, c.y)));
                    assert(false);
                }
            }
        }
        if possible_moves != 0 {
            None
        } else {
            let in_check = match check {
                Some(c) => c,
                None => self.is_team_in_check(opponent),
            };
            if in_check {
                Some(GameEnding::Checkmate)
            } else {
                Some(GameEnding::Stalemate)
            }
        }
    }

    /// Stores the current ending judgement in the state; nothing else moves.
    pub fn check_ending(&mut self)
        ensures
            final(self).board == old(self).board,
            final(self).state.team_to_play == old(self).state.team_to_play,
            final(self).state.castling == old(self).state.castling,
            final(self).state.en_passant_target_square == old(
                self,
            ).state.en_passant_target_square,
            final(self).state.ending == spec_bl_ending(
                *old(self),
                spec_opposite_team(old(self).state.team_to_play),
                spec_bl_in_check(*old(self), spec_opposite_team(old(self).state.team_to_play)),
            ),
    {
        let ending = self.get_game_ending(None);
        self.state.ending = ending;
    }

    /// The legal moves of the piece on (x, y): exactly its kept moves, empty
    /// when the square is free.
    pub fn calculate_moves_for(&self, x: i8, y: i8) -> (r: Vec<Move>)
        requires
            spec_on_board(x as int, y as int),
        ensures
            self.spec_at(x as int, y as int) is None ==> r.len() == 0,
            forall|i: int|
                0 <= i < r.len() ==> spec_on_board(
                    (#[trigger] r[i]).from.x as int,
                    r[i].from.y as int,
                ) && spec_on_board(r[i].to.x as int, r[i].to.y as int),
            self.spec_at(x as int, y as int) matches Some(p) ==> {
                &&& forall|i: int|
                    0 <= i < r.len() ==> spec_bl_hyp_move(*self, p, x, y, #[trigger] r[i], false)
                &&& forall|cx: i8, cy: i8|
                    #[trigger] spec_bl_kept_move(
                        *self,
                        p,
                        x,
                        y,
                        Coordinates { x: cx, y: cy },
                        false,
                    ) ==> r@.contains(spec_bl_record(*self, x, y, cx, cy))
            },
    {
        match self.get_piece_at(x, y) {
            Some(piece) => self.hypothetically_calculate_moves_for(x, y, piece, false),
            None => Vec::new(),
        }
    }

    /// Whether the piece on the current square may legally move to the
    /// future square: exactly when a kept move leads there.
    pub fn is_move_possible(&self, current_x: i8, current_y: i8, future_x: i8, future_y: i8) -> (r:
        bool)
        requires
            spec_on_board(current_x as int, current_y as int),
        ensures
            r == (match self.spec_at(current_x as int, current_y as int) {
                Some(p) => spec_bl_kept_move(
                    *self,
                    p,
                    current_x,
                    current_y,
                    Coordinates { x: future_x, y: future_y },
                    false,
                ),
                None => false,
            }),
    {
        let moves = self.calculate_moves_for(current_x, current_y);
        let mut i: usize = 0;
        while i < moves.len()
            invariant
                i <= moves.len(),
                spec_on_board(current_x as int, current_y as int),
                self.spec_at(current_x as int, current_y as int) matches Some(p) ==> {
                    &&& forall|j: int|
                        0 <= j < moves.len() ==> spec_bl_hyp_move(
                            *self,
                            p,
                            current_x,
                            current_y,
                            #[trigger] moves[j],
                            false,
                        )
                    &&& forall|cx: i8, cy: i8|
                        #[trigger] spec_bl_kept_move(
                            *self,
                            p,
                            current_x,
                            current_y,
                            Coordinates { x: cx, y: cy },
                            false,
                        ) ==> moves@.contains(spec_bl_record(*self, current_x, current_y, cx, cy))
                },
                self.spec_at(current_x as int, current_y as int) is None ==> moves.len() == 0,
                forall|j: int|
                    0 <= j < i ==> !((#[trigger] moves[j]).to.x == future_x && moves[j].to.y
                        == future_y),
            decreases moves.len() - i,
        {
            if moves[i].to.x == future_x && moves[i].to.y == future_y {
                proof {
                    let p = self.spec_at(current_x as int, current_y as int)->Some_0;
                    assert(spec_bl_hyp_move(*self, p, current_x, current_y, moves[i as int], false));
                    let c = choose|c: Coordinates|
                        #[trigger] spec_bl_kept_move(*self, p, current_x, current_y, c, false)
                            && moves[i as int] == spec_bl_record(
                            *self,
                            current_x,
                            current_y,
                            c.x,
                            c.y,
                        );
                    assert(c == Coordinates { x: future_x, y: future_y });
                }
                return true;
            }
            i = i + 1;
        }
        proof {
            if self.spec_at(current_x as int, current_y as int) is Some {
                let p = self.spec_at(current_x as int, current_y as int)->Some_0;
                if spec_bl_kept_move(
                    *self,
                    p,
                    current_x,
                    current_y,
                    Coordinates { x: future_x, y: future_y },
                    false,
                ) {
                    assert(moves@.contains(
                        spec_bl_record(*self, current_x, current_y, future_x, future_y),
                    ));
                    let j = choose|j: int|
                        0 <= j < moves@.len() && moves@[j] == spec_bl_record(
                            *self,
                            current_x,
                            current_y,
                            future_x,
                            future_y,
                        );
                    assert(moves[j].to.x == future_x && moves[j].to.y == future_y);
                    assert(false);
                }
            }
        }
        false
    }

    /// The board and state effects of a move, without legality checking and
    /// without judging check or ending: castling relocates the rook, a double
    /// push records the en-passant square, an en-passant capture removes the
    /// passed pawn, a promoting pawn lands as a queen, and the turn flips.
    /// A move the board cannot accept returns `None` and changes nothing.
    fn apply_move_core(&mut self, current_x: i8, current_y: i8, future_x: i8, future_y: i8) -> (r:
        Option<Move>)
        requires
            spec_on_board(current_x as int, current_y as int),
            spec_on_board(future_x as int, future_y as int),
        ensures
            r is Some <==> spec_bl_play_ok(*old(self), current_x, current_y, future_x, future_y),
            r is None ==> *final(self) == *old(self),
            r matches Some(mv) ==> {
                &&& mv == spec_bl_record(*old(self), current_x, current_y, future_x, future_y)
                &&& spec_bl_applied(
                    *old(self),
                    *final(self),
                    current_x,
                    current_y,
                    future_x,
                    future_y,
                )
            },
    {
        let ghost b0 = *self;
        let piece_opt = self.get_piece_at(current_x, current_y);
        if piece_opt.is_none() {
            return None;
        }
        let piece = piece_opt.unwrap();
        if current_x == future_x && current_y == future_y {
            return None;
        }
        let target = self.get_piece_at(future_x, future_y);
        if let Some(t) = target {
            if t.team == piece.team {
                return None;
            }
        }
        let is_castle = piece.piece_type == PieceType::King && (future_x == current_x + 2
            || future_x + 2 == current_x);
        if is_castle && !(current_x == 5 && future_y == current_y) {
            return None;
        }
        let is_promo = piece.piece_type == PieceType::Pawn && future_y == (if piece.team
            == Team::White {
            8
        } else {
            1
        });
        let mut move_ = Move {
            piece,
            from: Coordinates { x: current_x, y: current_y },
            to: Coordinates { x: future_x, y: future_y },
            check: false,
            capture: target.is_some(),
            castle: is_castle,
            ending: None,
            en_passant: false,
            promotion: is_promo,
        };
        if piece.piece_type == PieceType::Rook && current_y == self.get_board_y_start_for_team(
            piece.team,
        ) {
            if current_x == 1 || current_x == 8 {
                let side = self.get_side(current_x);
                update_castling_state(&mut self.state, piece.team, side, false);
            }
        }
        if piece.piece_type == PieceType::King {
            if is_castle {
                let rook_x: i8 = if future_x > current_x {
                    8
                } else {
                    1
                };
                let rook_future_x: i8 = if future_x > current_x {
                    6
                } else {
                    4
                };
                self.move_piece(rook_x, current_y, rook_future_x, current_y);
            }
            if piece.team == Team::White {
                self.state.castling.white_queen_side = false;
                self.state.castling.white_king_side = false;
            } else {
                self.state.castling.black_queen_side = false;
                self.state.castling.black_king_side = false;
            }
        }
        let ghost g1 = *self;
        if piece.piece_type == PieceType::Pawn && (future_y == current_y + 2 || future_y + 2
            == current_y) {
            let d = self.get_y_orientation(piece.team);
            self.state.en_passant_target_square = Some(
                Coordinates { x: current_x, y: future_y - d },
            );
        } else {
            self.state.en_passant_target_square = None;
        }
        if piece.piece_type == PieceType::Pawn && future_x != current_x && target.is_none() {
            if let Some(en_passant_target) = self.get_piece_at(future_x, current_y) {
                if en_passant_target.piece_type == PieceType::Pawn && en_passant_target.team
                    != piece.team {
                    self.set_cell(future_x, current_y, None);
                    move_.capture = true;
                    move_.en_passant = true;
                }
            }
        }
        let ghost g2 = *self;
        self.set_cell(current_x, current_y, None);
        let ghost g3 = *self;
        self.set_cell(
            future_x,
            future_y,
            Some(
                if is_promo {
                    Piece { piece_type: PieceType::Queen, team: piece.team }
                } else {
                    piece
                },
            ),
        );
        let ghost g4 = *self;
        self.state.team_to_play = get_opposite_team(piece.team);
        proof {
            assert(self.board == g4.board);
            assert(forall|x2: int, y2: int|
                spec_on_board(x2, y2) ==> self.spec_at(x2, y2) == g4.spec_at(x2, y2));
            assert(move_ == spec_bl_record(b0, current_x, current_y, future_x, future_y));
            let ep = spec_bl_is_ep(b0, current_x, current_y, future_x, future_y);
            let castle = spec_bl_is_castle(b0, current_x, current_y, future_x, future_y);
            if ep {
                assert(future_y != current_y);
            }
            if castle {
                assert(current_x == 5 && future_y == current_y);
                assert(spec_bl_rook_from_x(current_x, future_x) == 1 || spec_bl_rook_from_x(
                    current_x,
                    future_x,
                ) == 8);
                assert(spec_bl_rook_to_x(current_x, future_x) == 4 || spec_bl_rook_to_x(
                    current_x,
                    future_x,
                ) == 6);
                assert(future_x == 3 || future_x == 7);
            }
            assert(self.spec_at(future_x as int, future_y as int) == Some(
                spec_bl_landing(b0, current_x, current_y, future_x, future_y),
            ));
            assert(self.spec_at(current_x as int, current_y as int) is None);
            if ep {
                assert(g2.spec_at(future_x as int, current_y as int) is None);
                assert(g3.spec_at(future_x as int, current_y as int) == g2.spec_at(
                    future_x as int,
                    current_y as int,
                ));
                assert(g4.spec_at(future_x as int, current_y as int) == g3.spec_at(
                    future_x as int,
                    current_y as int,
                ));
                assert(self.spec_at(future_x as int, current_y as int) == g4.spec_at(
                    future_x as int,
                    current_y as int,
                ));
            }
            if castle {
                let rfx = spec_bl_rook_from_x(current_x, future_x) as int;
                let rtx = spec_bl_rook_to_x(current_x, future_x) as int;
                assert(rfx != current_x as int && rtx != current_x as int && rfx
                    != future_x as int && rtx != future_x as int);
                assert(g2.board == g1.board);
                assert(forall|x2: int, y2: int|
                    spec_on_board(x2, y2) ==> g2.spec_at(x2, y2) == g1.spec_at(x2, y2));
                assert(g3.spec_at(rtx, current_y as int) == g2.spec_at(rtx, current_y as int));
                assert(g3.spec_at(rfx, current_y as int) == g2.spec_at(rfx, current_y as int));
                assert(g4.spec_at(rtx, current_y as int) == g3.spec_at(rtx, current_y as int));
                assert(g4.spec_at(rfx, current_y as int) == g3.spec_at(rfx, current_y as int));
                assert(self.spec_at(rtx, current_y as int) == g4.spec_at(rtx, current_y as int));
                assert(self.spec_at(rfx, current_y as int) == g4.spec_at(rfx, current_y as int));
                assert(match b0.spec_at(rfx, current_y as int) {
                    Some(rp) => g1.spec_at(rtx, current_y as int) == Some(rp) && g1.spec_at(
                        rfx,
                        current_y as int,
                    ) is None,
                    None => g1.spec_at(rtx, current_y as int) == b0.spec_at(
                        rtx,
                        current_y as int,
                    ) && g1.spec_at(rfx, current_y as int) == b0.spec_at(rfx, current_y as int),
                });
            }
            assert forall|x2: int, y2: int|
                spec_on_board(x2, y2) && !spec_bl_touched(
                    b0,
                    current_x,
                    current_y,
                    future_x,
                    future_y,
                    x2,
                    y2,
                ) implies self.spec_at(x2, y2) == b0.spec_at(x2, y2) by {
                assert(g1.spec_at(x2, y2) == b0.spec_at(x2, y2));
                assert(g2.spec_at(x2, y2) == g1.spec_at(x2, y2));
                assert(g3.spec_at(x2, y2) == g2.spec_at(x2, y2));
                assert(g4.spec_at(x2, y2) == g3.spec_at(x2, y2));
                assert(self.spec_at(x2, y2) == g4.spec_at(x2, y2));
            }
            assert(self.state.castling == spec_bl_new_castling(
                b0,
                current_x,
                current_y,
                future_x,
                future_y,
            ));
            assert(self.state.en_passant_target_square == spec_bl_new_ep(
                b0,
                current_x,
                current_y,
                future_x,
                future_y,
            ));
            assert(spec_bl_applied(b0, *self, current_x, current_y, future_x, future_y));
        }
        Some(move_)
    }

    /// Plays the move, with the full move semantics of `apply_move_core`.
    /// With `legally` the move is played exactly when it is among the
    /// piece's kept moves; with `check_state` the returned record's check
    /// and ending fields carry the judgement of the resulting position. An
    /// unplayable move returns `None` and leaves both the board and the
    /// state alone.
    pub fn play_move(
        &mut self,
        current_x: i8,
        current_y: i8,
        future_x: i8,
        future_y: i8,
        legally: bool,
        check_state: bool,
    ) -> (r: Option<Move>)
        requires
            spec_on_board(current_x as int, current_y as int),
            spec_on_board(future_x as int, future_y as int),
        ensures
            r is None ==> *final(self) == *old(self),
            r is Some ==> spec_bl_play_ok(*old(self), current_x, current_y, future_x, future_y),
            !legally ==> (r is Some <==> spec_bl_play_ok(
                *old(self),
                current_x,
                current_y,
                future_x,
                future_y,
            )),
            legally ==> (r is Some <==> (match old(self).spec_at(
                current_x as int,
                current_y as int,
            ) {
                Some(p) => spec_bl_kept_move(
                    *old(self),
                    p,
                    current_x,
                    current_y,
                    Coordinates { x: future_x, y: future_y },
                    false,
                ),
                None => false,
            })),
            r matches Some(mv) ==> {
                &&& spec_bl_applied(
                    *old(self),
                    *final(self),
                    current_x,
                    current_y,
                    future_x,
                    future_y,
                )
                &&& {
                    let rec = spec_bl_record(
                        *old(self),
                        current_x,
                        current_y,
                        future_x,
                        future_y,
                    );
                    mv == (Move { check: mv.check, ending: mv.ending, ..rec })
                }
                &&& (!check_state ==> mv.check == false && mv.ending is None)
                &&& (check_state ==> mv.check == spec_bl_in_check(
                    *final(self),
                    spec_opposite_team(mv.piece.team),
                ) && mv.ending == spec_bl_ending(
                    *final(self),
                    spec_opposite_team(mv.piece.team),
                    mv.check,
                ))
            },
    {
        if legally && !self.is_move_possible(current_x, current_y, future_x, future_y) {
            return None;
        }
        let played = self.apply_move_core(current_x, current_y, future_x, future_y);
        match played {
            None => None,
            Some(mv) => {
                let mut move_ = mv;
                if check_state {
                    let next = get_opposite_team(move_.piece.team);
                    let check = self.is_team_in_check(next);
                    move_.check = check;
                    let replies = self.get_all_moves_for_team(next);
                    proof {
                        if replies.len() != 0 {
                            assert(spec_bl_team_move(*self, next, replies[0]));
                            let (x2, y2) = choose|x2: i8, y2: i8|
                                #![trigger spec_bl_hyp_move(*self, self.spec_at(x2 as int, y2 as int)->Some_0, x2, y2, replies[0], false)]
                                spec_on_board(x2 as int, y2 as int) && self.spec_at(
                                    x2 as int,
                                    y2 as int,
                                ) is Some && self.spec_at(x2 as int, y2 as int)->Some_0.team
                                    == next && spec_bl_hyp_move(
                                    *self,
                                    self.spec_at(x2 as int, y2 as int)->Some_0,
                                    x2,
                                    y2,
                                    replies[0],
                                    false,
                                );
                            let c = choose|c: Coordinates|
                                #[trigger] spec_bl_kept_move(
                                    *self,
                                    self.spec_at(x2 as int, y2 as int)->Some_0,
                                    x2,
                                    y2,
                                    c,
                                    false,
                                ) && replies[0] == spec_bl_record(*self, x2, y2, c.x, c.y);
                            assert(spec_bl_has_move(*self, next));
                        } else {
                            if spec_bl_has_move(*self, next) {
                                let (x2, y2, c) = choose|x2: i8, y2: i8, c: Coordinates|
                                    #![trigger spec_bl_kept_move(*self, self.spec_at(x2 as int, y2 as int)->Some_0, x2, y2, c, false)]
                                    spec_on_board(x2 as int, y2 as int) && self.spec_at(
                                        x2 as int,
                                        y2 as int,
                                    ) is Some && self.spec_at(x2 as int, y2 as int)->Some_0.team
                                        == next && spec_bl_kept_move(
                                        *self,
                                        self.spec_at(x2 as int, y2 as int)->Some_0,
                                        x2,
                                        y2,
                                        c,
                                        false,
                                    );
                                assert(replies@.contains(spec_bl_record(*self, x2, y2, c.x, c.y)));
                                assert(false);
                            }
                        }
                    }
                    move_.ending = if replies.len() != 0 {
                        None
                    } else if check {
                        Some(GameEnding::Checkmate)
                    } else {
                        Some(GameEnding::Stalemate)
                    };
                }
                Some(move_)
            },
        }
    }

    /// Relocates a piece without any move bookkeeping: the origin is emptied,
    /// the target receives the piece, every other square stays as it was.
    pub fn move_piece(&mut self, current_x: i8, current_y: i8, future_x: i8, future_y: i8)
        requires
            spec_on_board(current_x as int, current_y as int),
            spec_on_board(future_x as int, future_y as int),
        ensures
            old(self).spec_at(current_x as int, current_y as int) is None ==> final(self).board
                == old(self).board,
            old(self).spec_at(current_x as int, current_y as int) matches Some(p) ==> {
                &&& final(self).spec_at(future_x as int, future_y as int) == Some(p)
                &&& ((current_x != future_x || current_y != future_y) ==> final(self).spec_at(
                    current_x as int,
                    current_y as int,
                ) is None)
                &&& forall|x2: int, y2: int|
                    spec_on_board(x2, y2) && !(x2 == current_x as int && y2 == current_y as int)
                        && !(x2 == future_x as int && y2 == future_y as int)
                        ==> #[trigger] final(self).spec_at(x2, y2) == old(self).spec_at(x2, y2)
            },
            final(self).state == old(self).state,
    {
        if let Some(piece) = self.get_piece_at(current_x, current_y) {
            self.set_cell(current_x, current_y, None);
            self.set_cell(future_x, future_y, Some(piece));
        }
    }

    /// Where `team`'s king stands, if anywhere: exactly the first square
    /// holding it in scan order.
    pub fn find_king(&self, team: Team) -> (r: Option<Coordinates>)
        ensures
            r == spec_bl_find_king(*self, team),
            r matches Some(c) ==> spec_on_board(c.x as int, c.y as int) && self.spec_at(
                c.x as int,
                c.y as int,
            ) == Some(Piece { piece_type: PieceType::King, team }),
            r is None ==> forall|x2: int, y2: int|
                spec_on_board(x2, y2) ==> #[trigger] self.spec_at(x2, y2) != Some(
                    Piece { piece_type: PieceType::King, team },
                ),
    {
        let mut y: i8 = 1;
        while y <= 8
            invariant
                1 <= y <= 9,
                spec_bl_find_king_from(*self, team, (y - 1) * 8) == spec_bl_find_king(*self, team),
                forall|x2: int, y2: int|
                    spec_on_board(x2, y2) && y2 < y ==> #[trigger] self.spec_at(x2, y2) != Some(
                        Piece { piece_type: PieceType::King, team },
                    ),
            decreases 9 - y,
        {
            let mut x: i8 = 1;
            while x <= 8
                invariant
                    1 <= x <= 9,
                    1 <= y <= 8,
                    spec_bl_find_king_from(*self, team, (y - 1) * 8 + (x - 1))
                        == spec_bl_find_king(*self, team),
                    forall|x2: int, y2: int|
                        spec_on_board(x2, y2) && (y2 < y || (y2 == y && x2 < x))
                            ==> #[trigger] self.spec_at(x2, y2) != Some(
                            Piece { piece_type: PieceType::King, team },
                        ),
                decreases 9 - x,
            {
                let ghost n = (y - 1) * 8 + (x - 1);
                proof {
                    assert(n % 8 + 1 == x as int && n / 8 + 1 == y as int);
                }
                if let Some(piece) = self.get_piece_at(x, y) {
                    if piece.piece_type == PieceType::King && piece.team == team {
                        proof {
                            assert(spec_bl_find_king_from(*self, team, n) == Some(
                                Coordinates { x, y },
                            ));
                        }
                        return Some(Coordinates { x, y });
                    }
                }
                proof {
                    assert(spec_bl_find_king_from(*self, team, n) == spec_bl_find_king_from(
                        *self,
                        team,
                        n + 1,
                    ));
                }
                x = x + 1;
            }
            y = y + 1;
        }
        proof {
            assert(spec_bl_find_king_from(*self, team, 64) is None);
        }
        None
    }

    /// The legal moves of `piece` standing on (x, y): its movement-pattern
    /// moves, kept exactly when the board accepts the move and the mover's
    /// king is not threatened after playing it on a copy of the board.
    pub fn hypothetically_calculate_moves_for(
        &self,
        x: i8,
        y: i8,
        piece: Piece,
        threats_only: bool,
    ) -> (r: Vec<Move>)
        requires
            spec_on_board(x as int, y as int),
            self.spec_at(x as int, y as int) == Some(piece),
        ensures
            forall|i: int|
                0 <= i < r.len() ==> spec_on_board(
                    (#[trigger] r[i]).from.x as int,
                    r[i].from.y as int,
                ) && spec_on_board(r[i].to.x as int, r[i].to.y as int),
            forall|i: int|
                0 <= i < r.len() ==> spec_bl_hyp_move(*self, piece, x, y, #[trigger] r[i], threats_only),
            forall|cx: i8, cy: i8|
                #[trigger] spec_bl_kept_move(
                    *self,
                    piece,
                    x,
                    y,
                    Coordinates { x: cx, y: cy },
                    threats_only,
                ) ==> r@.contains(spec_bl_record(*self, x, y, cx, cy)),
    {
        let mut legal_moves: Vec<Move> = Vec::new();
        let coordinates = self.optimistically_calculate_piece_moves(x, y, piece, threats_only);
        let mut i: usize = 0;
        while i < coordinates.len()
            invariant
                i <= coordinates.len(),
                spec_on_board(x as int, y as int),
                self.spec_at(x as int, y as int) == Some(piece),
                spec_all_on_board(coordinates@),
                forall|j: int|
                    0 <= j < coordinates.len() ==> spec_bl_piece_dests(
                        *self,
                        piece.team,
                        x,
                        y,
                        piece.piece_type,
                        #[trigger] coordinates[j],
                        threats_only,
                    ),
                forall|cx: i8, cy: i8|
                    #[trigger] spec_bl_piece_dests(
                        *self,
                        piece.team,
                        x,
                        y,
                        piece.piece_type,
                        Coordinates { x: cx, y: cy },
                        threats_only,
                    ) ==> coordinates@.contains(Coordinates { x: cx, y: cy }),
                forall|j: int|
                    0 <= j < legal_moves.len() ==> spec_on_board(
                        (#[trigger] legal_moves[j]).from.x as int,
                        legal_moves[j].from.y as int,
                    ) && spec_on_board(legal_moves[j].to.x as int, legal_moves[j].to.y as int),
                forall|j: int|
                    0 <= j < legal_moves.len() ==> spec_bl_hyp_move(
                        *self,
                        piece,
                        x,
                        y,
                        #[trigger] legal_moves[j],
                        threats_only,
                    ),
                forall|j: int|
                    0 <= j < i && #[trigger] spec_bl_kept_move(
                        *self,
                        piece,
                        x,
                        y,
                        coordinates[j],
                        threats_only,
                    ) ==> legal_moves@.contains(
                        spec_bl_record(*self, x, y, coordinates[j].x, coordinates[j].y),
                    ),
            decreases coordinates.len() - i,
        {
            let ghost legal0 = legal_moves@;
            let coordinate = coordinates[i];
            let mut hypothetical = *self;
            let mov = hypothetical.apply_move_core(x, y, coordinate.x, coordinate.y);
            if let Some(mov) = mov {
                let safe = !hypothetical.is_team_in_check(piece.team);
                proof {
                    assert(spec_bl_applied(*self, hypothetical, x, y, coordinate.x, coordinate.y));
                }
                if safe {
                    proof {
                        assert forall|b2: BoardLogic|
                            #[trigger] spec_bl_applied(
                                *self,
                                b2,
                                x,
                                y,
                                coordinate.x,
                                coordinate.y,
                            ) implies !spec_bl_in_check(b2, piece.team) by {
                            lemma_bl_applied_unique(
                                *self,
                                b2,
                                hypothetical,
                                x,
                                y,
                                coordinate.x,
                                coordinate.y,
                            );
                        }
                        assert(spec_bl_kept_move(*self, piece, x, y, coordinate, threats_only));
                        assert(mov == spec_bl_record(*self, x, y, coordinate.x, coordinate.y));
                        assert(spec_bl_hyp_move(*self, piece, x, y, mov, threats_only));
                    }
                    legal_moves.push(mov);
                } else {
                    proof {
                        assert(!spec_bl_kept_move(*self, piece, x, y, coordinate, threats_only));
                    }
                }
            } else {
                proof {
                    assert(!spec_bl_play_ok(*self, x, y, coordinate.x, coordinate.y));
                    assert(!spec_bl_kept_move(*self, piece, x, y, coordinate, threats_only));
                }
            }
            proof {
                assert forall|j: int|
                    0 <= j < i + 1 && #[trigger] spec_bl_kept_move(
                        *self,
                        piece,
                        x,
                        y,
                        coordinates[j],
                        threats_only,
                    ) implies legal_moves@.contains(
                    spec_bl_record(*self, x, y, coordinates[j].x, coordinates[j].y),
                ) by {
                    if j == i {
                        assert(legal_moves@[legal_moves@.len() - 1] == spec_bl_record(
                            *self,
                            x,
                            y,
                            coordinates[j].x,
                            coordinates[j].y,
                        ));
                    } else {
                        assert(legal0.contains(
                            spec_bl_record(*self, x, y, coordinates[j].x, coordinates[j].y),
                        ));
                        let k = choose|k: int|
                            0 <= k < legal0.len() && legal0[k] == spec_bl_record(
                                *self,
                                x,
                                y,
                                coordinates[j].x,
                                coordinates[j].y,
                            );
                        assert(legal_moves@[k] == spec_bl_record(
                            *self,
                            x,
                            y,
                            coordinates[j].x,
                            coordinates[j].y,
                        ));
                    }
                }
            }
            i = i + 1;
        }
        proof {
            assert forall|cx: i8, cy: i8|
                #[trigger] spec_bl_kept_move(
                    *self,
                    piece,
                    x,
                    y,
                    Coordinates { x: cx, y: cy },
                    threats_only,
                ) implies legal_moves@.contains(spec_bl_record(*self, x, y, cx, cy)) by {
                assert(coordinates@.contains(Coordinates { x: cx, y: cy }));
                let j = choose|j: int|
                    0 <= j < coordinates@.len() && coordinates@[j] == Coordinates { x: cx, y: cy };
                assert(spec_bl_kept_move(*self, piece, x, y, coordinates[j], threats_only));
            }
        }
        legal_moves
    }

    /// The material balance for `team`: each piece counts its worth, own
    /// pieces positively, opposing ones negatively.
    pub fn evaluate_position(&self, team: Team) -> (score: i32)
        ensures
            score == self.spec_eval_upto(team, 64),
    {
        let mut score: i32 = 0;
        let mut n: usize = 0;
        while n < 64
            invariant
                n <= 64,
                score == self.spec_eval_upto(team, n as int),
                -1000 * n <= score <= 1000 * n,
            decreases 64 - n,
        {
            let x = (n % 8 + 1) as i8;
            let y = (n / 8 + 1) as i8;
            if let Some(piece) = self.get_piece_at(x, y) {
                let value: i32 = match piece.piece_type {
                    PieceType::Pawn => 1,
                    PieceType::Knight => 3,
                    PieceType::Bishop => 3,
                    PieceType::Rook => 5,
                    PieceType::Queen => 9,
                    PieceType::King => 1000,
                };
                score = score + (if piece.team == team {
                    value
                } else {
                    -value
                });
            }
            n = n + 1;
        }
        score
    }

    /// The movement-pattern destinations of `piece` standing on (x, y),
    /// king safety not yet asked: the list holds exactly the pattern moves.
    pub fn optimistically_calculate_piece_moves(
        &self,
        x: i8,
        y: i8,
        piece: Piece,
        threats_only: bool,
    ) -> (r: Vec<Coordinates>)
        requires
            spec_on_board(x as int, y as int),
        ensures
            spec_all_on_board(r@),
            forall|i: int|
                0 <= i < r.len() ==> spec_bl_piece_dests(
                    *self,
                    piece.team,
                    x,
                    y,
                    piece.piece_type,
                    #[trigger] r[i],
                    threats_only,
                ),
            forall|cx: i8, cy: i8|
                #[trigger] spec_bl_piece_dests(
                    *self,
                    piece.team,
                    x,
                    y,
                    piece.piece_type,
                    Coordinates { x: cx, y: cy },
                    threats_only,
                ) ==> r@.contains(Coordinates { x: cx, y: cy }),
    {
        match piece.piece_type {
            PieceType::King => calculate_moves_for_king(self, piece.team, x, y),
            PieceType::Queen => calculate_moves_for_queen(self, piece.team, x, y),
            PieceType::Rook => calculate_moves_for_rook(self, piece.team, x, y),
            PieceType::Bishop => calculate_moves_for_bishop(self, piece.team, x, y),
            PieceType::Knight => calculate_moves_for_knight(self, piece.team, x, y),
            PieceType::Pawn => calculate_moves_for_pawn(self, piece.team, x, y, threats_only),
        }
    }

    /// Parses a position string into a square-array board, or `None` when a
    /// field is malformed: the cells and the scalar state are exactly what
    /// the placement, side, castling and en-passant fields say (the stored
    /// ending judgement is computed from the parsed position).
    pub fn from_fen(fen: &str) -> (r: Option<BoardLogic>)
        ensures
            r is Some <==> crate::game::fen::spec_fen_ok(fen@),
            r matches Some(b) ==> {
                let toks = crate::game::fen::spec_fen_fields(fen@);
                let cells = crate::game::fen::spec_placement(
                    fen@.subrange(toks[0].0, toks[0].1),
                )->Some_0;
                let side = crate::game::fen::spec_side_field(
                    fen@.subrange(toks[1].0, toks[1].1),
                )->Some_0;
                let rights = crate::game::fen::spec_castling_field(
                    fen@.subrange(toks[2].0, toks[2].1),
                )->Some_0;
                let ep = crate::game::fen::spec_ep_field(
                    fen@.subrange(toks[3].0, toks[3].1),
                )->Some_0;
                &&& forall|x: int, y: int|
                    spec_on_board(x, y) ==> #[trigger] b.spec_at(x, y) == spec_to_array_piece(
                        cells[(y - 1) * 8 + (x - 1)],
                    )
                &&& b.state.team_to_play == (if side == 0 {
                    Team::White
                } else {
                    Team::Black
                })
                &&& b.state.castling == spec_rights_of_bits(rights)
                &&& b.state.en_passant_target_square == (match ep {
                    Some(sq) => Some(
                        Coordinates { x: (sq % 8 + 1) as i8, y: (sq / 8 + 1) as i8 },
                    ),
                    None => None,
                })
            },
    {
        let parsed_opt = crate::game::fen::new_board(fen);
        let parsed = match parsed_opt {
            Some(b) => b,
            None => {
                return None;
            },
        };
        let ghost toks = crate::game::fen::spec_fen_fields(fen@);
        let ghost cells = crate::game::fen::spec_placement(
            fen@.subrange(toks[0].0, toks[0].1),
        )->Some_0;
        let turn = if parsed.state.team_to_play == 0 {
            Team::White
        } else {
            Team::Black
        };
        let castling = CastlingRights {
            white_king_side: parsed.state.castling_rights.is_allowed(0, 0),
            white_queen_side: parsed.state.castling_rights.is_allowed(0, 1),
            black_king_side: parsed.state.castling_rights.is_allowed(1, 0),
            black_queen_side: parsed.state.castling_rights.is_allowed(1, 1),
        };
        let en_passant_target_square: Option<Coordinates> = match parsed.state.en_passant_square {
            Some(sq) => Some(Coordinates { x: (sq % 8 + 1) as i8, y: (sq / 8 + 1) as i8 }),
            None => None,
        };
        let state = BoardState { team_to_play: turn, en_passant_target_square, ending: None, castling };
        let mut engine = BoardLogic { board: [[None; 8]; 8], state };
        let mut y: i8 = 1;
        while y <= 8
            invariant
                1 <= y <= 9,
                parsed.wf(),
                toks == crate::game::fen::spec_fen_fields(fen@),
                cells == crate::game::fen::spec_placement(
                    fen@.subrange(toks[0].0, toks[0].1),
                )->Some_0,
                forall|sq: u64|
                    sq < 64 ==> crate::board::board::bv_at(parsed@, sq) == cells[sq as int],
                engine.state == state,
                forall|x2: int, y2: int|
                    spec_on_board(x2, y2) && y2 < y ==> #[trigger] engine.spec_at(x2, y2)
                        == spec_to_array_piece(cells[(y2 - 1) * 8 + (x2 - 1)]),
                forall|x2: int, y2: int|
                    spec_on_board(x2, y2) && y2 >= y ==> #[trigger] engine.spec_at(x2, y2) is None,
            decreases 9 - y,
        {
            let mut x: i8 = 1;
            while x <= 8
                invariant
                    1 <= x <= 9,
                    1 <= y <= 8,
                    parsed.wf(),
                    toks == crate::game::fen::spec_fen_fields(fen@),
                    cells == crate::game::fen::spec_placement(
                        fen@.subrange(toks[0].0, toks[0].1),
                    )->Some_0,
                    forall|sq: u64|
                        sq < 64 ==> crate::board::board::bv_at(parsed@, sq) == cells[sq as int],
                    engine.state == state,
                    forall|x2: int, y2: int|
                        spec_on_board(x2, y2) && (y2 < y || (y2 == y && x2 < x))
                            ==> #[trigger] engine.spec_at(x2, y2) == spec_to_array_piece(
                            cells[(y2 - 1) * 8 + (x2 - 1)],
                        ),
                    forall|x2: int, y2: int|
                        spec_on_board(x2, y2) && (y2 > y || (y2 == y && x2 >= x))
                            ==> #[trigger] engine.spec_at(x2, y2) is None,
                decreases 9 - x,
            {
                let sq = ((y - 1) as usize) * 8 + ((x - 1) as usize);
                let mbi = ((y - 1) as usize) * 16 + ((x - 1) as usize);
                proof {
                    assert(crate::board::board::bv_at(parsed@, sq as u64) == parsed.mailbox.spec_at(
                        mbi as int,
                    ));
                }
                let gp = *parsed.mailbox.get_piece_at(mbi);
                let converted: Option<Piece> = match gp {
                    Some(g) => Some(
                        Piece {
                            piece_type: match g.get_piece() {
                                0 => PieceType::Pawn,
                                1 => PieceType::Bishop,
                                2 => PieceType::Knight,
                                3 => PieceType::Rook,
                                4 => PieceType::Queen,
                                _ => PieceType::King,
                            },
                            team: if g.get_team() == 0 {
                                Team::White
                            } else {
                                Team::Black
                            },
                        },
                    ),
                    None => None,
                };
                proof {
                    assert(converted == spec_to_array_piece(cells[(y - 1) * 8 + (x - 1)]));
                }
                engine.set_cell(x, y, converted);
                x = x + 1;
            }
            y = y + 1;
        }
        proof {
            assert(parsed.state.team_to_play == parsed@.turn);
            assert(parsed.state.castling_rights.spec_bits() == parsed@.castling);
            assert(parsed.state.en_passant_square == parsed@.ep);
        }
        let ghost ge = engine;
        engine.check_ending();
        proof {
            assert(engine.board == ge.board);
            assert forall|x2: int, y2: int| spec_on_board(x2, y2) implies #[trigger] engine.spec_at(
                x2,
                y2,
            ) == spec_to_array_piece(cells[(y2 - 1) * 8 + (x2 - 1)]) by {
                assert(engine.spec_at(x2, y2) == ge.spec_at(x2, y2));
                assert(ge.spec_at(x2, y2) == spec_to_array_piece(cells[(y2 - 1) * 8 + (x2 - 1)]));
            }
        }
        Some(engine)
    }
}

/// Turns a file letter and rank digit into a one-based coordinate.
pub fn parse_square_name_chars(fc: char, rc: char) -> (r: Option<Coordinates>)
    ensures
        match r {
            Some(c) => 'a' as u8 <= fc as u8 <= 'h' as u8 && '1' as u8 <= rc as u8 <= '8' as u8
                && c.x == fc as u8 - 'a' as u8 + 1 && c.y == rc as u8 - '1' as u8 + 1
                && spec_on_board(c.x as int, c.y as int),
            None => !('a' as u8 <= fc as u8 <= 'h' as u8 && '1' as u8 <= rc as u8 <= '8' as u8),
        },
{
    let f = fc as u8;
    let k = rc as u8;
    if f < 'a' as u8 || f > 'h' as u8 || k < '1' as u8 || k > '8' as u8 {
        return None;
    }
    Some(Coordinates { x: (f - 'a' as u8 + 1) as i8, y: (k - '1' as u8 + 1) as i8 })
}

} // verus!
