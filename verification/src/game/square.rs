//! Parsing of algebraic square names such as "e3".

use vstd::prelude::*;
use crate::game::Vector;

verus! {

/// Whether the two characters name a board square: a file letter 'a'..'h'
/// followed by a rank digit '1'..'8'.
pub open spec fn spec_valid_square_name(f: char, r: char) -> bool {
    'a' as u8 <= f as u8 && f as u8 <= 'h' as u8 && '1' as u8 <= r as u8 && r as u8 <= '8' as u8
}

/// The coordinate a valid square name denotes: file 0..8 in `x`, rank 0..8 in `y`.
pub open spec fn spec_square_vector(f: char, r: char) -> Vector {
    Vector { x: (f as u8 - 'a' as u8) as u8, y: (r as u8 - '1' as u8) as u8 }
}

/// Turns a two-character square name into its coordinate, or `None` when the
/// text is not a square name.
pub fn square_to_vector(square: &str) -> (res: Option<Vector>)
    ensures
        match res {
            Some(v) => square@.len() == 2 && spec_valid_square_name(square@[0], square@[1])
                && v == spec_square_vector(square@[0], square@[1]) && v.x < 8 && v.y < 8,
            None => square@.len() != 2 || !spec_valid_square_name(square@[0], square@[1]),
        },
{
    if square.unicode_len() != 2 {
        return None;
    }
    let file = square.get_char(0) as u8;
    let rank = square.get_char(1) as u8;
    if file < 'a' as u8 || file > 'h' as u8 || rank < '1' as u8 || rank > '8' as u8 {
        return None;
    }
    Some(Vector { x: file - 'a' as u8, y: rank - '1' as u8 })
}

} // verus!
