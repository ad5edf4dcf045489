//! Small text utilities: square-name parsing and short algebraic move names.

use vstd::prelude::*;
use vstd::string::{StrSliceExecFns, StringExecFns};
use crate::game::{Coordinates, GameEnding, Move, PieceType};
use crate::game::moves::spec_on_board;

verus! {

/// Whether the two characters name a board square: a file letter 'a'..'h'
/// followed by a rank digit '1'..'8'.
pub open spec fn spec_square_name_ok(f: char, r: char) -> bool {
    'a' as u8 <= f as u8 && f as u8 <= 'h' as u8 && '1' as u8 <= r as u8 && r as u8 <= '8' as u8
}

/// Turns a square name such as "e3" into a one-based coordinate, or `None`
/// when the text is not a square name.
pub fn parse_square_name(square_name: &str) -> (r: Option<Coordinates>)
    ensures
        match r {
            Some(c) => square_name@.len() == 2 && spec_square_name_ok(
                square_name@[0],
                square_name@[1],
            ) && c.x == square_name@[0] as u8 - 'a' as u8 + 1 && c.y == square_name@[1] as u8
                - '1' as u8 + 1 && spec_on_board(c.x as int, c.y as int),
            None => square_name@.len() != 2 || !spec_square_name_ok(
                square_name@[0],
                square_name@[1],
            ),
        },
{
    if square_name.unicode_len() != 2 {
        return None;
    }
    let fc = square_name.get_char(0);
    let rc = square_name.get_char(1);
    crate::game::engine::parse_square_name_chars(fc, rc)
}

/// The letter a piece kind is written with.
pub fn get_piece_letter(piece_type: PieceType) -> (r: char)
    ensures
        r == match piece_type {
            PieceType::Pawn => 'P',
            PieceType::Knight => 'N',
            PieceType::Bishop => 'B',
            PieceType::Rook => 'R',
            PieceType::Queen => 'Q',
            PieceType::King => 'K',
        },
{
    match piece_type {
        PieceType::Pawn => 'P',
        PieceType::Knight => 'N',
        PieceType::Bishop => 'B',
        PieceType::Rook => 'R',
        PieceType::Queen => 'Q',
        PieceType::King => 'K',
    }
}

/// A short algebraic name for a move: the piece letter (pawns go unnamed),
/// an 'x' on capture, the target square, '=' on promotion, and '+' or '#'
/// for check and mate.
#[allow(non_snake_case)]
pub fn nameMove(mov: &Move) -> (r: String)
    requires
        spec_on_board(mov.to.x as int, mov.to.y as int),
{
    let mut result = String::new();
    let piece = mov.piece.piece_type;
    if piece != PieceType::Pawn {
        let letter: &str = match piece {
            PieceType::Pawn => "P",
            PieceType::Knight => "N",
            PieceType::Bishop => "B",
            PieceType::Rook => "R",
            PieceType::Queen => "Q",
            PieceType::King => "K",
        };
        result.append(letter);
    }
    if mov.capture {
        result.append("x");
    }
    let file: &str = if mov.to.x == 1 {
        "a"
    } else if mov.to.x == 2 {
        "b"
    } else if mov.to.x == 3 {
        "c"
    } else if mov.to.x == 4 {
        "d"
    } else if mov.to.x == 5 {
        "e"
    } else if mov.to.x == 6 {
        "f"
    } else if mov.to.x == 7 {
        "g"
    } else {
        "h"
    };
    result.append(file);
    let rank: &str = if mov.to.y == 1 {
        "1"
    } else if mov.to.y == 2 {
        "2"
    } else if mov.to.y == 3 {
        "3"
    } else if mov.to.y == 4 {
        "4"
    } else if mov.to.y == 5 {
        "5"
    } else if mov.to.y == 6 {
        "6"
    } else if mov.to.y == 7 {
        "7"
    } else {
        "8"
    };
    result.append(rank);
    if mov.promotion {
        result.append("=");
    }
    if mov.check {
        result.append("+");
    } else if mov.ending == Some(GameEnding::Checkmate) {
        result.append("#");
    }
    result
}

} // verus!
