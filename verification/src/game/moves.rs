//! Coordinate-level move generation for the square-array engine. All
//! coordinates handed back lie on the board.

use vstd::prelude::*;
use crate::game::{Coordinates, PieceType, Side, Team, get_opposite_team};
use crate::game::engine::BoardLogic;

verus! {

/// Whether a one-based coordinate pair lies on the board.
pub open spec fn spec_on_board(x: int, y: int) -> bool {
    1 <= x <= 8 && 1 <= y <= 8
}

/// The rank direction a side's pawns advance in (one-based board).
pub open spec fn spec_pawn_dir(team: Team) -> int {
    if team == Team::White {
        1int
    } else {
        -1int
    }
}

/// A pawn move shape from (x, y) to `c`: a single advance onto a free square,
/// a double advance from the start rank through free squares, or a diagonal
/// step onto an opposing piece or the en-passant target (with `threats_only`,
/// any diagonal step).
pub open spec fn spec_pawn_move_shape(
    b: BoardLogic,
    team: Team,
    x: int,
    y: int,
    c: Coordinates,
    threats_only: bool,
) -> bool {
    let d = spec_pawn_dir(team);
    ||| (!threats_only && c.x == x && c.y == y + d && spec_on_board(c.x as int, c.y as int)
        && b.spec_at(c.x as int, c.y as int) is None)
    ||| (!threats_only && c.x == x && ((team == Team::White && y == 2) || (team == Team::Black && y
        == 7)) && c.y == y + 2 * d && b.spec_at(x, y + d) is None && b.spec_at(
        c.x as int,
        c.y as int,
    ) is None)
    ||| ((c.x == x + 1 || c.x == x - 1) && c.y == y + d && spec_on_board(c.x as int, c.y as int)
        && (match b.spec_at(c.x as int, c.y as int) {
        Some(p) => p.team != team,
        None => b.state.en_passant_target_square == Some(c),
    }))
}

/// The position of a knight jump in generation order, eight meaning no jump.
pub open spec fn spec_knight_delta_index(dx: int, dy: int) -> int {
    if dx == -1 && dy == 2 {
        0int
    } else if dx == 1 && dy == 2 {
        1
    } else if dx == -2 && dy == 1 {
        2
    } else if dx == -2 && dy == -1 {
        3
    } else if dx == 2 && dy == 1 {
        4
    } else if dx == 2 && dy == -1 {
        5
    } else if dx == -1 && dy == -2 {
        6
    } else if dx == 1 && dy == -2 {
        7
    } else {
        8
    }
}

/// A knight move shape: an L-jump onto a square not held by the own side.
pub open spec fn spec_knight_move_shape(
    b: BoardLogic,
    team: Team,
    x: int,
    y: int,
    c: Coordinates,
) -> bool {
    let dx = if c.x >= x {
        c.x - x
    } else {
        x - c.x
    };
    let dy = if c.y >= y {
        c.y - y
    } else {
        y - c.y
    };
    &&& spec_on_board(c.x as int, c.y as int)
    &&& ((dx == 1 && dy == 2) || (dx == 2 && dy == 1))
    &&& (match b.spec_at(c.x as int, c.y as int) {
        Some(p) => p.team != team,
        None => true,
    })
}

/// A king move shape: a one-square step onto a square not held by the own
/// side, or a castling hop by two files from the king's file when the side
/// still has a castling right.
pub open spec fn spec_king_move_shape(
    b: BoardLogic,
    team: Team,
    x: int,
    y: int,
    c: Coordinates,
) -> bool {
    let dx = if c.x >= x {
        c.x - x
    } else {
        x - c.x
    };
    let dy = if c.y >= y {
        c.y - y
    } else {
        y - c.y
    };
    ||| (spec_on_board(c.x as int, c.y as int) && dx <= 1 && dy <= 1 && !(dx == 0 && dy == 0)
        && (match b.spec_at(c.x as int, c.y as int) {
        Some(p) => p.team != team,
        None => true,
    }))
    ||| (x == 5 && dy == 0 && dx == 2 && (match team {
        Team::White => b.state.castling.white_king_side || b.state.castling.white_queen_side,
        Team::Black => b.state.castling.black_king_side || b.state.castling.black_queen_side,
    }) && spec_castle_path_clear(
        b,
        x,
        y,
        if c.x > x {
            Side::KingSide
        } else {
            Side::QueenSide
        },
    ))
}

/// The position of a king step in generation order, eight meaning no step.
pub open spec fn spec_king_delta_index(dx: int, dy: int) -> int {
    if dx == 1 && dy == 1 {
        0int
    } else if dx == 1 && dy == -1 {
        1
    } else if dx == -1 && dy == 1 {
        2
    } else if dx == -1 && dy == -1 {
        3
    } else if dx == 1 && dy == 0 {
        4
    } else if dx == 0 && dy == 1 {
        5
    } else if dx == -1 && dy == 0 {
        6
    } else if dx == 0 && dy == -1 {
        7
    } else {
        8
    }
}

/// All coordinates in the list lie on the board.
pub open spec fn spec_all_on_board(r: Seq<Coordinates>) -> bool {
    forall|i: int| 0 <= i < r.len() ==> spec_on_board((#[trigger] r[i]).x as int, r[i].y as int)
}

/// No listed square holds a piece of `team`.
pub open spec fn spec_none_own(b: BoardLogic, team: Team, r: Seq<Coordinates>) -> bool {
    forall|i: int|
        0 <= i < r.len() ==> (match b.spec_at((#[trigger] r[i]).x as int, r[i].y as int) {
            Some(p) => p.team != team,
            None => true,
        })
}

/// Whether the squares strictly between file `x` and the rook's corner on
/// rank `y` are all free.
pub open spec fn spec_castle_path_clear(b: BoardLogic, x: int, y: int, side: Side) -> bool {
    match side {
        Side::KingSide => forall|i: int| x + 1 <= i < 8 ==> #[trigger] b.spec_at(i, y) is None,
        Side::QueenSide => forall|i: int| 2 <= i < x ==> #[trigger] b.spec_at(i, y) is None,
    }
}

/// Whether the squares strictly between the king and the rook's corner on
/// rank `y` are free.
pub fn has_castling_space(board: &BoardLogic, x: i8, y: i8, side: Side) -> (r: bool)
    requires
        spec_on_board(x as int, y as int),
    ensures
        r == spec_castle_path_clear(*board, x as int, y as int, side),
{
    let (lo, hi): (i8, i8) = match side {
        Side::KingSide => (if x + 1 <= 8 { x + 1 } else { 8 }, 8),
        Side::QueenSide => (2, x),
    };
    let mut i = lo;
    let mut free = true;
    while i < hi
        invariant
            1 <= lo,
            hi <= 8,
            lo <= i,
            spec_on_board(x as int, y as int),
            lo as int == (match side {
                Side::KingSide => if x + 1 <= 8 {
                    x + 1
                } else {
                    8
                },
                Side::QueenSide => 2,
            }),
            hi as int == (match side {
                Side::KingSide => 8int,
                Side::QueenSide => x as int,
            }),
            i <= hi || i == lo,
            free == forall|j: int| lo <= j < i ==> #[trigger] board.spec_at(j, y as int) is None,
        decreases hi - i,
    {
        if board.get_piece_at(i, y).is_some() {
            free = false;
        }
        i = i + 1;
    }
    proof {
        assert(i == hi || (i == lo && lo > hi));
        if free {
            assert(spec_castle_path_clear(*board, x as int, y as int, side));
        } else {
            let j = choose|j: int|
                lo <= j < i && !(#[trigger] board.spec_at(j, y as int) is None);
            assert(j < hi);
            assert(!spec_castle_path_clear(*board, x as int, y as int, side));
        }
    }
    free
}

/// The quiet advances and captures of a pawn; with `threats_only` the quiet
/// advances are left out. The list holds exactly the moves of the pawn-move
/// shape.
pub fn calculate_moves_for_pawn(
    board: &BoardLogic,
    team: Team,
    x: i8,
    y: i8,
    threats_only: bool,
) -> (r: Vec<Coordinates>)
    requires
        spec_on_board(x as int, y as int),
    ensures
        spec_all_on_board(r@),
        forall|i: int|
            0 <= i < r.len() ==> spec_pawn_move_shape(
                *board,
                team,
                x as int,
                y as int,
                #[trigger] r[i],
                threats_only,
            ),
        forall|cx: i8, cy: i8|
            #[trigger] spec_pawn_move_shape(
                *board,
                team,
                x as int,
                y as int,
                Coordinates { x: cx, y: cy },
                threats_only,
            ) ==> r@.contains(Coordinates { x: cx, y: cy }),
{
    let mut moves: Vec<Coordinates> = Vec::new();
    let y_direction = board.get_y_orientation(team);
    if !threats_only && can_pawn_march(board, x, y, y_direction) {
        moves.push(Coordinates { x, y: y + y_direction });
        if (team == Team::White && y == 2) || (team == Team::Black && y == 7) {
            if can_pawn_march(board, x, y, 2 * y_direction) {
                moves.push(Coordinates { x, y: y + 2 * y_direction });
            }
        }
    }
    proof {
        assert forall|cx: i8, cy: i8|
            #[trigger] spec_pawn_move_shape(
                *board,
                team,
                x as int,
                y as int,
                Coordinates { x: cx, y: cy },
                threats_only,
            ) && cx == x implies moves@.contains(Coordinates { x: cx, y: cy }) by {
            let d = spec_pawn_dir(team);
            if cy as int == y + d {
                assert(moves@[0] == Coordinates { x: cx, y: cy });
            } else {
                assert(cy as int == y + 2 * d);
                assert(moves@[moves@.len() - 1] == Coordinates { x: cx, y: cy });
            }
        }
    }
    let ghost marched = moves@;
    let mut dstep: u8 = 0;
    while dstep < 2
        invariant
            dstep <= 2,
            spec_on_board(x as int, y as int),
            y_direction == spec_pawn_dir(team),
            spec_all_on_board(moves@),
            forall|i: int|
                0 <= i < moves.len() ==> spec_pawn_move_shape(
                    *board,
                    team,
                    x as int,
                    y as int,
                    #[trigger] moves[i],
                    threats_only,
                ),
            forall|cx: i8, cy: i8|
                #[trigger] spec_pawn_move_shape(
                    *board,
                    team,
                    x as int,
                    y as int,
                    Coordinates { x: cx, y: cy },
                    threats_only,
                ) && cx == x ==> moves@.contains(Coordinates { x: cx, y: cy }),
            dstep >= 1 ==> forall|cx: i8, cy: i8|
                #[trigger] spec_pawn_move_shape(
                    *board,
                    team,
                    x as int,
                    y as int,
                    Coordinates { x: cx, y: cy },
                    threats_only,
                ) && cx == x + 1 ==> moves@.contains(Coordinates { x: cx, y: cy }),
            dstep >= 2 ==> forall|cx: i8, cy: i8|
                #[trigger] spec_pawn_move_shape(
                    *board,
                    team,
                    x as int,
                    y as int,
                    Coordinates { x: cx, y: cy },
                    threats_only,
                ) && cx == x - 1 ==> moves@.contains(Coordinates { x: cx, y: cy }),
        decreases 2 - dstep,
    {
        let ghost moves0 = moves@;
        let dx: i8 = if dstep == 0 {
            1
        } else {
            -1
        };
        let new_x = x + dx;
        let new_y = y + y_direction;
        let mut pushed = false;
        if board.is_position_valid(new_x, new_y) {
            match board.get_piece_at(new_x, new_y) {
                Some(targeting_piece) => {
                    if targeting_piece.team != team {
                        moves.push(Coordinates { x: new_x, y: new_y });
                        pushed = true;
                    }
                },
                None => {
                    if let Some(en_passant_target) = board.state.en_passant_target_square {
                        if en_passant_target.x == new_x && en_passant_target.y == new_y {
                            moves.push(Coordinates { x: new_x, y: new_y });
                            pushed = true;
                        }
                    }
                },
            }
        }
        proof {
            assert forall|cx: i8, cy: i8|
                #[trigger] spec_pawn_move_shape(
                    *board,
                    team,
                    x as int,
                    y as int,
                    Coordinates { x: cx, y: cy },
                    threats_only,
                ) && cx == x + dx implies moves@.contains(Coordinates { x: cx, y: cy }) by {
                assert(cy as int == y + spec_pawn_dir(team));
                assert(pushed);
                assert(moves@[moves@.len() - 1] == Coordinates { x: cx, y: cy });
            }
            assert forall|c: Coordinates| moves0.contains(c) implies moves@.contains(c) by {
                let i = choose|i: int| 0 <= i < moves0.len() && moves0[i] == c;
                assert(moves@[i] == c);
            }
        }
        dstep = dstep + 1;
    }
    proof {
        assert forall|cx: i8, cy: i8|
            #[trigger] spec_pawn_move_shape(
                *board,
                team,
                x as int,
                y as int,
                Coordinates { x: cx, y: cy },
                threats_only,
            ) implies moves@.contains(Coordinates { x: cx, y: cy }) by {
            assert(cx == x || cx == x + 1 || cx == x - 1);
        }
    }
    moves
}

/// Whether the square `steps` ranks ahead of the pawn is on the board and free.
pub fn can_pawn_march(board: &BoardLogic, x: i8, y: i8, steps: i8) -> (r: bool)
    requires
        spec_on_board(x as int, y as int),
        -2 <= steps <= 2,
    ensures
        r == (1 <= y + steps <= 8 && board.spec_at(x as int, y as int + steps) is None),
{
    let new_y = y + steps;
    if new_y > 8 || new_y < 1 {
        return false;
    }
    board.get_piece_at(x, new_y).is_none()
}

/// The knight's eight jumps, own pieces excluded: the list holds exactly the
/// moves of the knight-move shape.
pub fn calculate_moves_for_knight(board: &BoardLogic, team: Team, x: i8, y: i8) -> (r: Vec<
    Coordinates,
>)
    requires
        spec_on_board(x as int, y as int),
    ensures
        spec_all_on_board(r@),
        forall|i: int|
            0 <= i < r.len() ==> spec_knight_move_shape(
                *board,
                team,
                x as int,
                y as int,
                #[trigger] r[i],
            ),
        forall|cx: i8, cy: i8|
            #[trigger] spec_knight_move_shape(
                *board,
                team,
                x as int,
                y as int,
                Coordinates { x: cx, y: cy },
            ) ==> r@.contains(Coordinates { x: cx, y: cy }),
{
    let mut moves: Vec<Coordinates> = Vec::new();
    let mut d: u8 = 0;
    while d < 8
        invariant
            d <= 8,
            spec_on_board(x as int, y as int),
            spec_all_on_board(moves@),
            forall|i: int|
                0 <= i < moves.len() ==> spec_knight_move_shape(
                    *board,
                    team,
                    x as int,
                    y as int,
                    #[trigger] moves[i],
                ),
            forall|cx: i8, cy: i8|
                #[trigger] spec_knight_move_shape(
                    *board,
                    team,
                    x as int,
                    y as int,
                    Coordinates { x: cx, y: cy },
                ) && spec_knight_delta_index(cx - x, cy - y) < d ==> moves@.contains(
                    Coordinates { x: cx, y: cy },
                ),
        decreases 8 - d,
    {
        let ghost moves0 = moves@;
        let (dx, dy): (i8, i8) = if d == 0 {
            (-1, 2)
        } else if d == 1 {
            (1, 2)
        } else if d == 2 {
            (-2, 1)
        } else if d == 3 {
            (-2, -1)
        } else if d == 4 {
            (2, 1)
        } else if d == 5 {
            (2, -1)
        } else if d == 6 {
            (-1, -2)
        } else {
            (1, -2)
        };
        let new_x = x + dx;
        let new_y = y + dy;
        let mut pushed = false;
        if board.is_position_valid(new_x, new_y) {
            match board.get_piece_at(new_x, new_y) {
                Some(targeting_piece) => {
                    if targeting_piece.team != team {
                        moves.push(Coordinates { x: new_x, y: new_y });
                        pushed = true;
                    }
                },
                None => {
                    moves.push(Coordinates { x: new_x, y: new_y });
                    pushed = true;
                },
            }
        }
        proof {
            assert forall|cx: i8, cy: i8|
                #[trigger] spec_knight_move_shape(
                    *board,
                    team,
                    x as int,
                    y as int,
                    Coordinates { x: cx, y: cy },
                ) && spec_knight_delta_index(cx - x, cy - y) < d + 1 implies moves@.contains(
                Coordinates { x: cx, y: cy },
            ) by {
                if spec_knight_delta_index(cx - x, cy - y) == d {
                    assert(cx as int == x + dx && cy as int == y + dy);
                    assert(pushed);
                    assert(moves@[moves@.len() - 1] == Coordinates { x: cx, y: cy });
                } else {
                    assert(moves0.contains(Coordinates { x: cx, y: cy }));
                    let i = choose|i: int|
                        0 <= i < moves0.len() && moves0[i] == Coordinates { x: cx, y: cy };
                    assert(moves@[i] == Coordinates { x: cx, y: cy });
                }
            }
        }
        d = d + 1;
    }
    proof {
        assert forall|cx: i8, cy: i8|
            #[trigger] spec_knight_move_shape(
                *board,
                team,
                x as int,
                y as int,
                Coordinates { x: cx, y: cy },
            ) implies moves@.contains(Coordinates { x: cx, y: cy }) by {
            assert(spec_knight_delta_index(cx - x, cy - y) < 8);
        }
    }
    moves
}

/// The king's eight steps, own pieces excluded, and the castling landing
/// squares when a wing is available and clear: the list holds exactly the
/// moves of the king-move shape.
pub fn calculate_moves_for_king(board: &BoardLogic, team: Team, x: i8, y: i8) -> (r: Vec<
    Coordinates,
>)
    requires
        spec_on_board(x as int, y as int),
    ensures
        spec_all_on_board(r@),
        forall|i: int|
            0 <= i < r.len() ==> spec_king_move_shape(
                *board,
                team,
                x as int,
                y as int,
                #[trigger] r[i],
            ),
        forall|cx: i8, cy: i8|
            #[trigger] spec_king_move_shape(
                *board,
                team,
                x as int,
                y as int,
                Coordinates { x: cx, y: cy },
            ) ==> r@.contains(Coordinates { x: cx, y: cy }),
{
    let mut moves: Vec<Coordinates> = Vec::new();
    if x == 5 && board.is_castling_available(team) {
        if has_castling_space(board, x, y, Side::QueenSide) {
            moves.push(Coordinates { x: x - 2, y });
        }
        if has_castling_space(board, x, y, Side::KingSide) {
            moves.push(Coordinates { x: x + 2, y });
        }
    }
    proof {
        assert forall|cx: i8, cy: i8|
            #[trigger] spec_king_move_shape(
                *board,
                team,
                x as int,
                y as int,
                Coordinates { x: cx, y: cy },
            ) && (cx - x == 2 || x - cx == 2) implies moves@.contains(
            Coordinates { x: cx, y: cy },
        ) by {
            if cx > x {
                assert(moves@[moves@.len() - 1] == Coordinates { x: cx, y: cy });
            } else {
                assert(moves@[0] == Coordinates { x: cx, y: cy });
            }
        }
    }
    let mut d: u8 = 0;
    while d < 8
        invariant
            d <= 8,
            spec_on_board(x as int, y as int),
            spec_all_on_board(moves@),
            forall|i: int|
                0 <= i < moves.len() ==> spec_king_move_shape(
                    *board,
                    team,
                    x as int,
                    y as int,
                    #[trigger] moves[i],
                ),
            forall|cx: i8, cy: i8|
                #[trigger] spec_king_move_shape(
                    *board,
                    team,
                    x as int,
                    y as int,
                    Coordinates { x: cx, y: cy },
                ) && (cx - x == 2 || x - cx == 2) ==> moves@.contains(Coordinates { x: cx, y: cy }),
            forall|cx: i8, cy: i8|
                #[trigger] spec_king_move_shape(
                    *board,
                    team,
                    x as int,
                    y as int,
                    Coordinates { x: cx, y: cy },
                ) && spec_king_delta_index(cx - x, cy - y) < d ==> moves@.contains(
                    Coordinates { x: cx, y: cy },
                ),
        decreases 8 - d,
    {
        let ghost moves0 = moves@;
        let (dx, dy): (i8, i8) = if d == 0 {
            (1, 1)
        } else if d == 1 {
            (1, -1)
        } else if d == 2 {
            (-1, 1)
        } else if d == 3 {
            (-1, -1)
        } else if d == 4 {
            (1, 0)
        } else if d == 5 {
            (0, 1)
        } else if d == 6 {
            (-1, 0)
        } else {
            (0, -1)
        };
        let new_x = x + dx;
        let new_y = y + dy;
        let mut pushed = false;
        if board.is_position_valid(new_x, new_y) {
            let mut own = false;
            if let Some(targeting_piece) = board.get_piece_at(new_x, new_y) {
                if targeting_piece.team == team {
                    own = true;
                }
            }
            if !own {
                moves.push(Coordinates { x: new_x, y: new_y });
                pushed = true;
            }
        }
        proof {
            assert forall|cx: i8, cy: i8|
                #[trigger] spec_king_move_shape(
                    *board,
                    team,
                    x as int,
                    y as int,
                    Coordinates { x: cx, y: cy },
                ) && (spec_king_delta_index(cx - x, cy - y) < d + 1 || cx - x == 2 || x - cx
                == 2) implies moves@.contains(Coordinates { x: cx, y: cy }) by {
                if spec_king_delta_index(cx - x, cy - y) == d {
                    assert(cx as int == x + dx && cy as int == y + dy);
                    assert(pushed);
                    assert(moves@[moves@.len() - 1] == Coordinates { x: cx, y: cy });
                } else {
                    assert(moves0.contains(Coordinates { x: cx, y: cy }));
                    let i = choose|i: int|
                        0 <= i < moves0.len() && moves0[i] == Coordinates { x: cx, y: cy };
                    assert(moves@[i] == Coordinates { x: cx, y: cy });
                }
            }
        }
        d = d + 1;
    }
    proof {
        assert forall|cx: i8, cy: i8|
            #[trigger] spec_king_move_shape(
                *board,
                team,
                x as int,
                y as int,
                Coordinates { x: cx, y: cy },
            ) implies moves@.contains(Coordinates { x: cx, y: cy }) by {
            assert(spec_king_delta_index(cx - x, cy - y) < 8 || cx - x == 2 || x - cx == 2);
        }
    }
    moves
}


/// Walking from (x, y) in direction (dx, dy): `c` is a ray destination if it
/// is the next square and free or opposing, or the next square is free and
/// the walk goes on. The walk stops on any piece.
pub open spec fn spec_bl_ray_dest(
    b: BoardLogic,
    team: Team,
    x: int,
    y: int,
    dx: int,
    dy: int,
    c: Coordinates,
    fuel: nat,
) -> bool
    decreases fuel,
{
    fuel > 0 && {
        let nx = x + dx;
        let ny = y + dy;
        &&& spec_on_board(nx, ny)
        &&& {
            ||| (c.x == nx && c.y == ny && (match b.spec_at(nx, ny) {
                Some(p) => p.team != team,
                None => true,
            }))
            ||| (b.spec_at(nx, ny) is None && spec_bl_ray_dest(
                b,
                team,
                nx,
                ny,
                dx,
                dy,
                c,
                (fuel - 1) as nat,
            ))
        }
    }
}

/// The bishop's ray destinations from (x, y).
pub open spec fn spec_bl_bishop_dest(b: BoardLogic, team: Team, x: int, y: int, c: Coordinates)
    -> bool {
    ||| spec_bl_ray_dest(b, team, x, y, 1, 1, c, 7)
    ||| spec_bl_ray_dest(b, team, x, y, 1, -1, c, 7)
    ||| spec_bl_ray_dest(b, team, x, y, -1, 1, c, 7)
    ||| spec_bl_ray_dest(b, team, x, y, -1, -1, c, 7)
}

/// The rook's ray destinations from (x, y).
pub open spec fn spec_bl_rook_dest(b: BoardLogic, team: Team, x: int, y: int, c: Coordinates)
    -> bool {
    ||| spec_bl_ray_dest(b, team, x, y, 1, 0, c, 7)
    ||| spec_bl_ray_dest(b, team, x, y, -1, 0, c, 7)
    ||| spec_bl_ray_dest(b, team, x, y, 0, 1, c, 7)
    ||| spec_bl_ray_dest(b, team, x, y, 0, -1, c, 7)
}

/// Whether `c` is a ray destination of one of the given directions.
pub open spec fn spec_bl_dir_sound(
    b: BoardLogic,
    team: Team,
    x: int,
    y: int,
    dirs: Seq<(i8, i8)>,
    c: Coordinates,
) -> bool {
    exists|d: int|
        0 <= d < dirs.len() && spec_bl_ray_dest(
            b,
            team,
            x,
            y,
            (#[trigger] dirs[d]).0 as int,
            dirs[d].1 as int,
            c,
            7,
        )
}

/// The ray destinations in one direction, far squares first.
fn bl_ray_dests(board: &BoardLogic, team: Team, x: i8, y: i8, dx: i8, dy: i8, fuel: u8) -> (r: Vec<
    Coordinates,
>)
    requires
        spec_on_board(x as int, y as int),
        -1 <= dx <= 1,
        -1 <= dy <= 1,
        fuel <= 7,
    ensures
        spec_all_on_board(r@),
        forall|i: int|
            0 <= i < r.len() ==> spec_bl_ray_dest(
                *board,
                team,
                x as int,
                y as int,
                dx as int,
                dy as int,
                #[trigger] r[i],
                fuel as nat,
            ),
        forall|cx: i8, cy: i8|
            #[trigger] spec_bl_ray_dest(
                *board,
                team,
                x as int,
                y as int,
                dx as int,
                dy as int,
                Coordinates { x: cx, y: cy },
                fuel as nat,
            ) ==> r@.contains(Coordinates { x: cx, y: cy }),
    decreases fuel,
{
    if fuel == 0 {
        return Vec::new();
    }
    let nx = x + dx;
    let ny = y + dy;
    if !(nx >= 1 && nx <= 8 && ny >= 1 && ny <= 8) {
        return Vec::new();
    }
    match board.get_piece_at(nx, ny) {
        Some(p) => {
            let mut r: Vec<Coordinates> = Vec::new();
            if p.team != team {
                r.push(Coordinates { x: nx, y: ny });
            }
            proof {
                assert forall|cx: i8, cy: i8|
                    #[trigger] spec_bl_ray_dest(
                        *board,
                        team,
                        x as int,
                        y as int,
                        dx as int,
                        dy as int,
                        Coordinates { x: cx, y: cy },
                        fuel as nat,
                    ) implies r@.contains(Coordinates { x: cx, y: cy }) by {
                    assert(cx == nx && cy == ny);
                    assert(r@[0] == Coordinates { x: cx, y: cy });
                }
            }
            r
        },
        None => {
            let mut r = bl_ray_dests(board, team, nx, ny, dx, dy, fuel - 1);
            let ghost r0 = r@;
            r.push(Coordinates { x: nx, y: ny });
            proof {
                assert forall|cx: i8, cy: i8|
                    #[trigger] spec_bl_ray_dest(
                        *board,
                        team,
                        x as int,
                        y as int,
                        dx as int,
                        dy as int,
                        Coordinates { x: cx, y: cy },
                        fuel as nat,
                    ) implies r@.contains(Coordinates { x: cx, y: cy }) by {
                    if cx == nx && cy == ny {
                        assert(r@[r@.len() - 1] == Coordinates { x: cx, y: cy });
                    } else {
                        assert(spec_bl_ray_dest(
                            *board,
                            team,
                            nx as int,
                            ny as int,
                            dx as int,
                            dy as int,
                            Coordinates { x: cx, y: cy },
                            (fuel - 1) as nat,
                        ));
                        let i = choose|i: int|
                            0 <= i < r0.len() && r0[i] == Coordinates { x: cx, y: cy };
                        assert(r@[i] == Coordinates { x: cx, y: cy });
                    }
                }
            }
            r
        },
    }
}

/// The bishop's four diagonal rays: the list holds exactly the bishop's ray
/// destinations.
pub fn calculate_moves_for_bishop(board: &BoardLogic, team: Team, x: i8, y: i8) -> (r: Vec<
    Coordinates,
>)
    requires
        spec_on_board(x as int, y as int),
    ensures
        spec_all_on_board(r@),
        spec_none_own(*board, team, r@),
        forall|i: int|
            0 <= i < r.len() ==> spec_bl_bishop_dest(*board, team, x as int, y as int, #[trigger] r[i]),
        forall|cx: i8, cy: i8|
            #[trigger] spec_bl_bishop_dest(
                *board,
                team,
                x as int,
                y as int,
                Coordinates { x: cx, y: cy },
            ) ==> r@.contains(Coordinates { x: cx, y: cy }),
{
    let mut directions: Vec<(i8, i8)> = Vec::new();
    directions.push((1, 1));
    directions.push((1, -1));
    directions.push((-1, 1));
    directions.push((-1, -1));
    let ghost dirs = directions@;
    let r = calculate_progressive_moves(board, team, x, y, directions);
    proof {
        assert forall|i: int| 0 <= i < r.len() implies spec_bl_bishop_dest(
            *board,
            team,
            x as int,
            y as int,
            #[trigger] r[i],
        ) by {
            let d = choose|d: int|
                0 <= d < dirs.len() && spec_bl_ray_dest(
                    *board,
                    team,
                    x as int,
                    y as int,
                    (#[trigger] dirs[d]).0 as int,
                    dirs[d].1 as int,
                    r[i],
                    7,
                );
            assert(0 <= d < 4);
        }
        assert forall|cx: i8, cy: i8|
            #[trigger] spec_bl_bishop_dest(
                *board,
                team,
                x as int,
                y as int,
                Coordinates { x: cx, y: cy },
            ) implies r@.contains(Coordinates { x: cx, y: cy }) by {
            if spec_bl_ray_dest(*board, team, x as int, y as int, 1, 1, Coordinates { x: cx, y: cy }, 7) {
                assert(spec_bl_ray_dest(
                    *board,
                    team,
                    x as int,
                    y as int,
                    (dirs[0]).0 as int,
                    dirs[0].1 as int,
                    Coordinates { x: cx, y: cy },
                    7,
                ));
            }
            if spec_bl_ray_dest(*board, team, x as int, y as int, 1, -1, Coordinates { x: cx, y: cy }, 7) {
                assert(spec_bl_ray_dest(
                    *board,
                    team,
                    x as int,
                    y as int,
                    (dirs[1]).0 as int,
                    dirs[1].1 as int,
                    Coordinates { x: cx, y: cy },
                    7,
                ));
            }
            if spec_bl_ray_dest(*board, team, x as int, y as int, -1, 1, Coordinates { x: cx, y: cy }, 7) {
                assert(spec_bl_ray_dest(
                    *board,
                    team,
                    x as int,
                    y as int,
                    (dirs[2]).0 as int,
                    dirs[2].1 as int,
                    Coordinates { x: cx, y: cy },
                    7,
                ));
            }
            if spec_bl_ray_dest(*board, team, x as int, y as int, -1, -1, Coordinates { x: cx, y: cy }, 7) {
                assert(spec_bl_ray_dest(
                    *board,
                    team,
                    x as int,
                    y as int,
                    (dirs[3]).0 as int,
                    dirs[3].1 as int,
                    Coordinates { x: cx, y: cy },
                    7,
                ));
            }
        }
    }
    r
}

/// The rook's four straight rays: the list holds exactly the rook's ray
/// destinations.
pub fn calculate_moves_for_rook(board: &BoardLogic, team: Team, x: i8, y: i8) -> (r: Vec<
    Coordinates,
>)
    requires
        spec_on_board(x as int, y as int),
    ensures
        spec_all_on_board(r@),
        spec_none_own(*board, team, r@),
        forall|i: int|
            0 <= i < r.len() ==> spec_bl_rook_dest(*board, team, x as int, y as int, #[trigger] r[i]),
        forall|cx: i8, cy: i8|
            #[trigger] spec_bl_rook_dest(
                *board,
                team,
                x as int,
                y as int,
                Coordinates { x: cx, y: cy },
            ) ==> r@.contains(Coordinates { x: cx, y: cy }),
{
    let mut directions: Vec<(i8, i8)> = Vec::new();
    directions.push((1, 0));
    directions.push((-1, 0));
    directions.push((0, 1));
    directions.push((0, -1));
    let ghost dirs = directions@;
    let r = calculate_progressive_moves(board, team, x, y, directions);
    proof {
        assert forall|i: int| 0 <= i < r.len() implies spec_bl_rook_dest(
            *board,
            team,
            x as int,
            y as int,
            #[trigger] r[i],
        ) by {
            let d = choose|d: int|
                0 <= d < dirs.len() && spec_bl_ray_dest(
                    *board,
                    team,
                    x as int,
                    y as int,
                    (#[trigger] dirs[d]).0 as int,
                    dirs[d].1 as int,
                    r[i],
                    7,
                );
            assert(0 <= d < 4);
        }
        assert forall|cx: i8, cy: i8|
            #[trigger] spec_bl_rook_dest(
                *board,
                team,
                x as int,
                y as int,
                Coordinates { x: cx, y: cy },
            ) implies r@.contains(Coordinates { x: cx, y: cy }) by {
            if spec_bl_ray_dest(*board, team, x as int, y as int, 1, 0, Coordinates { x: cx, y: cy }, 7) {
                assert(spec_bl_ray_dest(
                    *board,
                    team,
                    x as int,
                    y as int,
                    (dirs[0]).0 as int,
                    dirs[0].1 as int,
                    Coordinates { x: cx, y: cy },
                    7,
                ));
            }
            if spec_bl_ray_dest(*board, team, x as int, y as int, -1, 0, Coordinates { x: cx, y: cy }, 7) {
                assert(spec_bl_ray_dest(
                    *board,
                    team,
                    x as int,
                    y as int,
                    (dirs[1]).0 as int,
                    dirs[1].1 as int,
                    Coordinates { x: cx, y: cy },
                    7,
                ));
            }
            if spec_bl_ray_dest(*board, team, x as int, y as int, 0, 1, Coordinates { x: cx, y: cy }, 7) {
                assert(spec_bl_ray_dest(
                    *board,
                    team,
                    x as int,
                    y as int,
                    (dirs[2]).0 as int,
                    dirs[2].1 as int,
                    Coordinates { x: cx, y: cy },
                    7,
                ));
            }
            if spec_bl_ray_dest(*board, team, x as int, y as int, 0, -1, Coordinates { x: cx, y: cy }, 7) {
                assert(spec_bl_ray_dest(
                    *board,
                    team,
                    x as int,
                    y as int,
                    (dirs[3]).0 as int,
                    dirs[3].1 as int,
                    Coordinates { x: cx, y: cy },
                    7,
                ));
            }
        }
    }
    r
}

/// The queen's eight rays: the list holds exactly the queen's ray
/// destinations.
#[verifier::rlimit(60)]
pub fn calculate_moves_for_queen(board: &BoardLogic, team: Team, x: i8, y: i8) -> (r: Vec<
    Coordinates,
>)
    requires
        spec_on_board(x as int, y as int),
    ensures
        spec_all_on_board(r@),
        spec_none_own(*board, team, r@),
        forall|i: int|
            0 <= i < r.len() ==> spec_bl_rook_dest(*board, team, x as int, y as int, #[trigger] r[i])
                || spec_bl_bishop_dest(*board, team, x as int, y as int, r[i]),
        forall|cx: i8, cy: i8|
            #[trigger] spec_bl_rook_dest(
                *board,
                team,
                x as int,
                y as int,
                Coordinates { x: cx, y: cy },
            ) ==> r@.contains(Coordinates { x: cx, y: cy }),
        forall|cx: i8, cy: i8|
            #[trigger] spec_bl_bishop_dest(
                *board,
                team,
                x as int,
                y as int,
                Coordinates { x: cx, y: cy },
            ) ==> r@.contains(Coordinates { x: cx, y: cy }),
{
    let mut directions: Vec<(i8, i8)> = Vec::new();
    directions.push((1, 1));
    directions.push((1, -1));
    directions.push((-1, 1));
    directions.push((-1, -1));
    directions.push((1, 0));
    directions.push((-1, 0));
    directions.push((0, 1));
    directions.push((0, -1));
    let ghost dirs = directions@;
    let r = calculate_progressive_moves(board, team, x, y, directions);
    proof {
        assert forall|i: int| 0 <= i < r.len() implies spec_bl_rook_dest(
            *board,
            team,
            x as int,
            y as int,
            #[trigger] r[i],
        ) || spec_bl_bishop_dest(*board, team, x as int, y as int, r[i]) by {
            let d = choose|d: int|
                0 <= d < dirs.len() && spec_bl_ray_dest(
                    *board,
                    team,
                    x as int,
                    y as int,
                    (#[trigger] dirs[d]).0 as int,
                    dirs[d].1 as int,
                    r[i],
                    7,
                );
            assert(0 <= d < 8);
        }
        assert forall|cx: i8, cy: i8|
            #[trigger] spec_bl_rook_dest(
                *board,
                team,
                x as int,
                y as int,
                Coordinates { x: cx, y: cy },
            ) implies r@.contains(Coordinates { x: cx, y: cy }) by {
            assert(dirs.len() == 8);
            assert(dirs[4] == (1i8, 0i8));
            assert(dirs[5] == (-1i8, 0i8));
            assert(dirs[6] == (0i8, 1i8));
            assert(dirs[7] == (0i8, -1i8));
            if spec_bl_ray_dest(*board, team, x as int, y as int, 1, 0, Coordinates { x: cx, y: cy }, 7) {
                assert(spec_bl_ray_dest(
                    *board,
                    team,
                    x as int,
                    y as int,
                    (dirs[4]).0 as int,
                    dirs[4].1 as int,
                    Coordinates { x: cx, y: cy },
                    7,
                ));
                assert(r@.contains(Coordinates { x: cx, y: cy }));
            }
            if spec_bl_ray_dest(*board, team, x as int, y as int, -1, 0, Coordinates { x: cx, y: cy }, 7) {
                assert(spec_bl_ray_dest(
                    *board,
                    team,
                    x as int,
                    y as int,
                    (dirs[5]).0 as int,
                    dirs[5].1 as int,
                    Coordinates { x: cx, y: cy },
                    7,
                ));
                assert(r@.contains(Coordinates { x: cx, y: cy }));
            }
            if spec_bl_ray_dest(*board, team, x as int, y as int, 0, 1, Coordinates { x: cx, y: cy }, 7) {
                assert(spec_bl_ray_dest(
                    *board,
                    team,
                    x as int,
                    y as int,
                    (dirs[6]).0 as int,
                    dirs[6].1 as int,
                    Coordinates { x: cx, y: cy },
                    7,
                ));
                assert(r@.contains(Coordinates { x: cx, y: cy }));
            }
            if spec_bl_ray_dest(*board, team, x as int, y as int, 0, -1, Coordinates { x: cx, y: cy }, 7) {
                assert(spec_bl_ray_dest(
                    *board,
                    team,
                    x as int,
                    y as int,
                    (dirs[7]).0 as int,
                    dirs[7].1 as int,
                    Coordinates { x: cx, y: cy },
                    7,
                ));
                assert(r@.contains(Coordinates { x: cx, y: cy }));
            }
        }
        assert forall|cx: i8, cy: i8|
            #[trigger] spec_bl_bishop_dest(
                *board,
                team,
                x as int,
                y as int,
                Coordinates { x: cx, y: cy },
            ) implies r@.contains(Coordinates { x: cx, y: cy }) by {
            assert(dirs.len() == 8);
            assert(dirs[0] == (1i8, 1i8));
            assert(dirs[1] == (1i8, -1i8));
            assert(dirs[2] == (-1i8, 1i8));
            assert(dirs[3] == (-1i8, -1i8));
            if spec_bl_ray_dest(*board, team, x as int, y as int, 1, 1, Coordinates { x: cx, y: cy }, 7) {
                assert(spec_bl_ray_dest(
                    *board,
                    team,
                    x as int,
                    y as int,
                    (dirs[0]).0 as int,
                    dirs[0].1 as int,
                    Coordinates { x: cx, y: cy },
                    7,
                ));
                assert(r@.contains(Coordinates { x: cx, y: cy }));
            }
            if spec_bl_ray_dest(*board, team, x as int, y as int, 1, -1, Coordinates { x: cx, y: cy }, 7) {
                assert(spec_bl_ray_dest(
                    *board,
                    team,
                    x as int,
                    y as int,
                    (dirs[1]).0 as int,
                    dirs[1].1 as int,
                    Coordinates { x: cx, y: cy },
                    7,
                ));
                assert(r@.contains(Coordinates { x: cx, y: cy }));
            }
            if spec_bl_ray_dest(*board, team, x as int, y as int, -1, 1, Coordinates { x: cx, y: cy }, 7) {
                assert(spec_bl_ray_dest(
                    *board,
                    team,
                    x as int,
                    y as int,
                    (dirs[2]).0 as int,
                    dirs[2].1 as int,
                    Coordinates { x: cx, y: cy },
                    7,
                ));
                assert(r@.contains(Coordinates { x: cx, y: cy }));
            }
            if spec_bl_ray_dest(*board, team, x as int, y as int, -1, -1, Coordinates { x: cx, y: cy }, 7) {
                assert(spec_bl_ray_dest(
                    *board,
                    team,
                    x as int,
                    y as int,
                    (dirs[3]).0 as int,
                    dirs[3].1 as int,
                    Coordinates { x: cx, y: cy },
                    7,
                ));
                assert(r@.contains(Coordinates { x: cx, y: cy }));
            }
        }
    }
    r
}

/// Walks each direction square by square, keeping every free square and the
/// first opposing piece, and stopping on any piece: the list holds exactly
/// the ray destinations of the given directions.
pub fn calculate_progressive_moves(
    board: &BoardLogic,
    team: Team,
    x: i8,
    y: i8,
    directions: Vec<(i8, i8)>,
) -> (r: Vec<Coordinates>)
    requires
        spec_on_board(x as int, y as int),
        forall|i: int|
            0 <= i < directions.len() ==> -1 <= (#[trigger] directions[i]).0 <= 1 && -1
                <= directions[i].1 <= 1,
    ensures
        spec_all_on_board(r@),
        spec_none_own(*board, team, r@),
        forall|i: int|
            0 <= i < r.len() ==> spec_bl_dir_sound(
                *board,
                team,
                x as int,
                y as int,
                directions@,
                #[trigger] r[i],
            ),
        forall|cx: i8, cy: i8, d: int|
            0 <= d < directions.len() && #[trigger] spec_bl_ray_dest(
                *board,
                team,
                x as int,
                y as int,
                (#[trigger] directions[d]).0 as int,
                directions[d].1 as int,
                Coordinates { x: cx, y: cy },
                7,
            ) ==> r@.contains(Coordinates { x: cx, y: cy }),
{
    let mut moves: Vec<Coordinates> = Vec::new();
    let mut d: usize = 0;
    while d < directions.len()
        invariant
            d <= directions.len(),
            spec_on_board(x as int, y as int),
            spec_all_on_board(moves@),
            spec_none_own(*board, team, moves@),
            forall|i: int|
                0 <= i < directions.len() ==> -1 <= (#[trigger] directions[i]).0 <= 1 && -1
                    <= directions[i].1 <= 1,
            forall|i: int|
                0 <= i < moves.len() ==> spec_bl_dir_sound(
                    *board,
                    team,
                    x as int,
                    y as int,
                    directions@,
                    #[trigger] moves[i],
                ),
            forall|cx: i8, cy: i8, d2: int|
                0 <= d2 < d && #[trigger] spec_bl_ray_dest(
                    *board,
                    team,
                    x as int,
                    y as int,
                    (#[trigger] directions[d2]).0 as int,
                    directions[d2].1 as int,
                    Coordinates { x: cx, y: cy },
                    7,
                ) ==> moves@.contains(Coordinates { x: cx, y: cy }),
        decreases directions.len() - d,
    {
        let (dx, dy) = directions[d];
        let extra = bl_ray_dests(board, team, x, y, dx, dy, 7);
        let mut k: usize = 0;
        while k < extra.len()
            invariant
                k <= extra.len(),
                d < directions.len(),
                (dx, dy) == directions[d as int],
                spec_on_board(x as int, y as int),
                spec_all_on_board(extra@),
                spec_all_on_board(moves@),
                spec_none_own(*board, team, moves@),
                forall|i: int|
                    0 <= i < extra.len() ==> spec_bl_ray_dest(
                        *board,
                        team,
                        x as int,
                        y as int,
                        dx as int,
                        dy as int,
                        #[trigger] extra[i],
                        7,
                    ),
                forall|cx: i8, cy: i8|
                    #[trigger] spec_bl_ray_dest(
                        *board,
                        team,
                        x as int,
                        y as int,
                        dx as int,
                        dy as int,
                        Coordinates { x: cx, y: cy },
                        7,
                    ) ==> extra@.contains(Coordinates { x: cx, y: cy }),
                forall|i: int|
                    0 <= i < moves.len() ==> exists|d2: int|
                        0 <= d2 < directions.len() && spec_bl_ray_dest(
                            *board,
                            team,
                            x as int,
                            y as int,
                            (#[trigger] directions[d2]).0 as int,
                            directions[d2].1 as int,
                            #[trigger] moves[i],
                            7,
                        ),
                forall|cx: i8, cy: i8, d2: int|
                    0 <= d2 < d && #[trigger] spec_bl_ray_dest(
                        *board,
                        team,
                        x as int,
                        y as int,
                        (#[trigger] directions[d2]).0 as int,
                        directions[d2].1 as int,
                        Coordinates { x: cx, y: cy },
                        7,
                    ) ==> moves@.contains(Coordinates { x: cx, y: cy }),
                forall|i: int| 0 <= i < k ==> moves@.contains(#[trigger] extra[i]),
            decreases extra.len() - k,
        {
            let ghost moves0 = moves@;
            let c = extra[k];
            moves.push(c);
            proof {
                assert(spec_bl_ray_dest(
                    *board,
                    team,
                    x as int,
                    y as int,
                    dx as int,
                    dy as int,
                    c,
                    7,
                ));
                assert(spec_bl_ray_dest(
                    *board,
                    team,
                    x as int,
                    y as int,
                    (directions@[d as int]).0 as int,
                    directions@[d as int].1 as int,
                    moves@[moves@.len() - 1],
                    7,
                ));
                assert(spec_bl_dir_sound(
                    *board,
                    team,
                    x as int,
                    y as int,
                    directions@,
                    moves@[moves@.len() - 1],
                ));
                assert(match board.spec_at(c.x as int, c.y as int) {
                    Some(p) => p.team != team,
                    None => true,
                }) by {
                    ray_dest_not_own(*board, team, x as int, y as int, dx as int, dy as int, c, 7);
                }
                assert forall|cc: Coordinates| moves0.contains(cc) implies moves@.contains(cc) by {
                    let i = choose|i: int| 0 <= i < moves0.len() && moves0[i] == cc;
                    assert(moves@[i] == cc);
                }
                assert forall|i: int| 0 <= i < k + 1 implies moves@.contains(#[trigger] extra[i])
                    by {
                    if i == k {
                        assert(moves@[moves@.len() - 1] == extra[i]);
                    } else {
                        assert(moves0.contains(extra[i]));
                        let j = choose|j: int| 0 <= j < moves0.len() && moves0[j] == extra[i];
                        assert(moves@[j] == extra[i]);
                    }
                }
            }
            k = k + 1;
        }
        proof {
            assert forall|cx: i8, cy: i8, d2: int|
                0 <= d2 < d + 1 && #[trigger] spec_bl_ray_dest(
                    *board,
                    team,
                    x as int,
                    y as int,
                    (#[trigger] directions[d2]).0 as int,
                    directions[d2].1 as int,
                    Coordinates { x: cx, y: cy },
                    7,
                ) implies moves@.contains(Coordinates { x: cx, y: cy }) by {
                if d2 == d {
                    assert(extra@.contains(Coordinates { x: cx, y: cy }));
                    let i = choose|i: int|
                        0 <= i < extra@.len() && extra@[i] == Coordinates { x: cx, y: cy };
                    assert(moves@.contains(extra[i]));
                }
            }
        }
        d = d + 1;
    }
    moves
}

/// A ray destination is never an own square.
proof fn ray_dest_not_own(
    b: BoardLogic,
    team: Team,
    x: int,
    y: int,
    dx: int,
    dy: int,
    c: Coordinates,
    fuel: nat,
)
    requires
        spec_bl_ray_dest(b, team, x, y, dx, dy, c, fuel),
    ensures
        match b.spec_at(c.x as int, c.y as int) {
            Some(p) => p.team != team,
            None => true,
        },
    decreases fuel,
{
    let nx = x + dx;
    let ny = y + dy;
    if !(c.x == nx && c.y == ny && (match b.spec_at(nx, ny) {
        Some(p) => p.team != team,
        None => true,
    })) {
        ray_dest_not_own(b, team, nx, ny, dx, dy, c, (fuel - 1) as nat);
    }
}


/// An opposing pawn standing one square diagonally toward (x, y).
pub open spec fn spec_pawn_hit(b: BoardLogic, team: Team, x: int, y: int, c: Coordinates) -> bool {
    &&& (c.x == x + 1 || c.x == x - 1)
    &&& c.y == y + spec_pawn_dir(team)
    &&& spec_on_board(c.x as int, c.y as int)
    &&& (match b.spec_at(c.x as int, c.y as int) {
        Some(p) => p.team != team && p.piece_type == PieceType::Pawn,
        None => false,
    })
}

/// An opposing rook or queen on a clear straight ray from (x, y).
pub open spec fn spec_straight_hit(b: BoardLogic, team: Team, x: int, y: int, c: Coordinates)
    -> bool {
    &&& spec_bl_rook_dest(b, team, x, y, c)
    &&& (match b.spec_at(c.x as int, c.y as int) {
        Some(p) => p.team != team && (p.piece_type == PieceType::Rook || p.piece_type
            == PieceType::Queen),
        None => false,
    })
}

/// An opposing bishop or queen on a clear diagonal ray from (x, y).
pub open spec fn spec_diag_hit(b: BoardLogic, team: Team, x: int, y: int, c: Coordinates) -> bool {
    &&& spec_bl_bishop_dest(b, team, x, y, c)
    &&& (match b.spec_at(c.x as int, c.y as int) {
        Some(p) => p.team != team && (p.piece_type == PieceType::Bishop || p.piece_type
            == PieceType::Queen),
        None => false,
    })
}

/// An opposing knight a jump away from (x, y).
pub open spec fn spec_knight_hit(b: BoardLogic, team: Team, x: int, y: int, c: Coordinates)
    -> bool {
    &&& spec_knight_move_shape(b, team, x, y, c)
    &&& (match b.spec_at(c.x as int, c.y as int) {
        Some(p) => p.team != team && p.piece_type == PieceType::Knight,
        None => false,
    })
}

/// An opposing king on a square adjacent to (x, y).
pub open spec fn spec_king_hit(b: BoardLogic, team: Team, x: int, y: int, c: Coordinates) -> bool {
    let dx = if c.x >= x {
        c.x - x
    } else {
        x - c.x
    };
    let dy = if c.y >= y {
        c.y - y
    } else {
        y - c.y
    };
    &&& spec_on_board(c.x as int, c.y as int)
    &&& dx <= 1
    &&& dy <= 1
    &&& !(dx == 0 && dy == 0)
    &&& (match b.spec_at(c.x as int, c.y as int) {
        Some(p) => p.team != team && p.piece_type == PieceType::King,
        None => false,
    })
}

/// Whether some opposing piece could capture into (x, y): a pawn diagonally
/// beside it, a rook or queen on a clear straight ray, a bishop or queen on
/// a clear diagonal ray, a knight a jump away, or a king adjacent.
pub open spec fn spec_bl_threatened(b: BoardLogic, team: Team, x: int, y: int) -> bool {
    ||| exists|c: Coordinates| #[trigger] spec_pawn_hit(b, team, x, y, c)
    ||| exists|c: Coordinates| #[trigger] spec_straight_hit(b, team, x, y, c)
    ||| exists|c: Coordinates| #[trigger] spec_diag_hit(b, team, x, y, c)
    ||| exists|c: Coordinates| #[trigger] spec_knight_hit(b, team, x, y, c)
    ||| exists|c: Coordinates| #[trigger] spec_king_hit(b, team, x, y, c)
}

/// Whether an opposing piece could capture into `space`: probes from the
/// square along pawn, straight, diagonal, knight and king patterns and looks
/// at what it finds. The result says exactly whether the square is
/// threatened.
pub fn is_space_threatened(space: &Coordinates, board: &BoardLogic, team: Team) -> (r: bool)
    requires
        spec_on_board(space.x as int, space.y as int),
    ensures
        r == spec_bl_threatened(*board, team, space.x as int, space.y as int),
{
    let x = space.x;
    let y = space.y;
    // A pawn threatens `space` if it stands one square diagonally toward it.
    let d = board.get_y_orientation(team);
    let mut i: u8 = 0;
    while i < 2
        invariant
            x == space.x,
            y == space.y,
            spec_on_board(x as int, y as int),
            d == spec_pawn_dir(team),
            i >= 1 ==> !exists|c: Coordinates| #[trigger] spec_pawn_hit(
                *board,
                team,
                x as int,
                y as int,
                c,
            ) && c.x == x + 1,
            i >= 2 ==> !exists|c: Coordinates| #[trigger] spec_pawn_hit(
                *board,
                team,
                x as int,
                y as int,
                c,
            ) && c.x == x - 1,
        decreases 2 - i,
    {
        let dx: i8 = if i == 0 {
            1
        } else {
            -1
        };
        let px = x + dx;
        let py = y + d;
        if board.is_position_valid(px, py) {
            if let Some(p) = board.get_piece_at(px, py) {
                if p.team != team && p.piece_type == PieceType::Pawn {
                    proof {
                        assert(spec_pawn_hit(
                            *board,
                            team,
                            x as int,
                            y as int,
                            Coordinates { x: px, y: py },
                        ));
                        assert(spec_bl_threatened(*board, team, x as int, y as int));
                    }
                    return true;
                }
            }
        }
        proof {
            assert forall|c: Coordinates|
                #[trigger] spec_pawn_hit(*board, team, x as int, y as int, c) && c.x as int == x
                + dx implies false by {
                assert(c == Coordinates { x: px, y: py });
            }
        }
        i = i + 1;
    }
    proof {
        assert forall|c: Coordinates|
            #[trigger] spec_pawn_hit(*board, team, x as int, y as int, c) implies false by {
            assert(c.x == x + 1 || c.x == x - 1);
        }
    }
    let straight = calculate_moves_for_rook(board, team, x, y);
    if check_if_piece_is_inside_coords(board, team, &straight, PieceType::Rook, PieceType::Queen) {
        proof {
            let i2 = choose|i2: int|
                0 <= i2 < straight.len() && (match board.spec_at(
                    (#[trigger] straight[i2]).x as int,
                    straight[i2].y as int,
                ) {
                    Some(p) => p.team != team && (p.piece_type == PieceType::Rook || p.piece_type
                        == PieceType::Queen),
                    None => false,
                });
            assert(spec_straight_hit(*board, team, x as int, y as int, straight[i2]));
        }
        return true;
    }
    proof {
        assert forall|c: Coordinates|
            #[trigger] spec_straight_hit(*board, team, x as int, y as int, c) implies false by {
            assert(straight@.contains(c));
            let i2 = choose|i2: int| 0 <= i2 < straight@.len() && straight@[i2] == c;
            assert(match board.spec_at((straight[i2]).x as int, straight[i2].y as int) {
                Some(p) => p.team != team && (p.piece_type == PieceType::Rook || p.piece_type
                    == PieceType::Queen),
                None => false,
            });
        }
    }
    let diagonal = calculate_moves_for_bishop(board, team, x, y);
    if check_if_piece_is_inside_coords(board, team, &diagonal, PieceType::Bishop, PieceType::Queen) {
        proof {
            let i2 = choose|i2: int|
                0 <= i2 < diagonal.len() && (match board.spec_at(
                    (#[trigger] diagonal[i2]).x as int,
                    diagonal[i2].y as int,
                ) {
                    Some(p) => p.team != team && (p.piece_type == PieceType::Bishop || p.piece_type
                        == PieceType::Queen),
                    None => false,
                });
            assert(spec_diag_hit(*board, team, x as int, y as int, diagonal[i2]));
        }
        return true;
    }
    proof {
        assert forall|c: Coordinates|
            #[trigger] spec_diag_hit(*board, team, x as int, y as int, c) implies false by {
            assert(diagonal@.contains(c));
            let i2 = choose|i2: int| 0 <= i2 < diagonal@.len() && diagonal@[i2] == c;
            assert(match board.spec_at((diagonal[i2]).x as int, diagonal[i2].y as int) {
                Some(p) => p.team != team && (p.piece_type == PieceType::Bishop || p.piece_type
                    == PieceType::Queen),
                None => false,
            });
        }
    }
    let knight_moves = calculate_moves_for_knight(board, team, x, y);
    if check_if_piece_is_inside_coords(board, team, &knight_moves, PieceType::Knight, PieceType::Knight) {
        proof {
            let i2 = choose|i2: int|
                0 <= i2 < knight_moves.len() && (match board.spec_at(
                    (#[trigger] knight_moves[i2]).x as int,
                    knight_moves[i2].y as int,
                ) {
                    Some(p) => p.team != team && p.piece_type == PieceType::Knight,
                    None => false,
                });
            assert(spec_knight_hit(*board, team, x as int, y as int, knight_moves[i2]));
        }
        return true;
    }
    proof {
        assert forall|c: Coordinates|
            #[trigger] spec_knight_hit(*board, team, x as int, y as int, c) implies false by {
            assert(knight_moves@.contains(c));
            let i2 = choose|i2: int| 0 <= i2 < knight_moves@.len() && knight_moves@[i2] == c;
            assert(match board.spec_at((knight_moves[i2]).x as int, knight_moves[i2].y as int) {
                Some(p) => p.team != team && p.piece_type == PieceType::Knight,
                None => false,
            });
        }
    }
    // An opposing king threatens `space` only from an adjacent square; the
    // castling hops of the king move list play no part here.
    let mut k: u8 = 0;
    while k < 8
        invariant
            x == space.x,
            y == space.y,
            spec_on_board(x as int, y as int),
            forall|c: Coordinates|
                #[trigger] spec_king_hit(*board, team, x as int, y as int, c)
                    && spec_king_delta_index(c.x - x, c.y - y) < k ==> false,
        decreases 8 - k,
    {
        let (dx, dy): (i8, i8) = if k == 0 {
            (1, 1)
        } else if k == 1 {
            (1, -1)
        } else if k == 2 {
            (-1, 1)
        } else if k == 3 {
            (-1, -1)
        } else if k == 4 {
            (1, 0)
        } else if k == 5 {
            (0, 1)
        } else if k == 6 {
            (-1, 0)
        } else {
            (0, -1)
        };
        let px = x + dx;
        let py = y + dy;
        if board.is_position_valid(px, py) {
            if let Some(p) = board.get_piece_at(px, py) {
                if p.team != team && p.piece_type == PieceType::King {
                    proof {
                        assert(spec_king_hit(
                            *board,
                            team,
                            x as int,
                            y as int,
                            Coordinates { x: px, y: py },
                        ));
                        assert(spec_bl_threatened(*board, team, x as int, y as int));
                    }
                    return true;
                }
            }
        }
        proof {
            assert forall|c: Coordinates|
                #[trigger] spec_king_hit(*board, team, x as int, y as int, c)
                    && spec_king_delta_index(c.x - x, c.y - y) < k + 1 implies false by {
                if spec_king_delta_index(c.x - x, c.y - y) == k {
                    assert(c == Coordinates { x: px, y: py });
                }
            }
        }
        k = k + 1;
    }
    proof {
        assert forall|c: Coordinates|
            #[trigger] spec_king_hit(*board, team, x as int, y as int, c) implies false by {
            assert(spec_king_delta_index(c.x - x, c.y - y) < 8);
        }
    }
    false
}

/// Whether any listed square holds an opposing piece of one of the two kinds:
/// the result says exactly that.
fn check_if_piece_is_inside_coords(
    board: &BoardLogic,
    team: Team,
    coordinates: &Vec<Coordinates>,
    kind_a: PieceType,
    kind_b: PieceType,
) -> (r: bool)
    requires
        spec_all_on_board(coordinates@),
    ensures
        r == exists|i: int|
            0 <= i < coordinates.len() && (match board.spec_at(
                (#[trigger] coordinates[i]).x as int,
                coordinates[i].y as int,
            ) {
                Some(p) => p.team != team && (p.piece_type == kind_a || p.piece_type == kind_b),
                None => false,
            }),
{
    let mut i: usize = 0;
    while i < coordinates.len()
        invariant
            spec_all_on_board(coordinates@),
            i <= coordinates.len(),
            forall|j: int|
                0 <= j < i ==> !(match board.spec_at(
                    (#[trigger] coordinates[j]).x as int,
                    coordinates[j].y as int,
                ) {
                    Some(p) => p.team != team && (p.piece_type == kind_a || p.piece_type == kind_b),
                    None => false,
                }),
        decreases coordinates.len() - i,
    {
        let coord = coordinates[i];
        if let Some(piece) = board.get_piece_at(coord.x, coord.y) {
            if piece.team != team && (piece.piece_type == kind_a || piece.piece_type == kind_b) {
                return true;
            }
        }
        i = i + 1;
    }
    false
}

} // verus!
