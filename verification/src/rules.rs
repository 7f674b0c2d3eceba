//! The rule set: board size, piece shapes, rotation kicks and twist checks.
//!
//! Coordinates are `(x, y)` with `x` growing to the right and `y` growing
//! upwards; row 0 is the bottom row of the board.  A piece is placed by the
//! lower left corner of its bounding box.

use vstd::prelude::*;

verus! {

/// Number of columns of the board.
pub const BOARD_WIDTH: i32 = 10;

/// Number of rows of the board (the upper half is the spawn area).
pub const BOARD_HEIGHT: i32 = 40;

/// Rows at or above this one are outside the visible field: a piece that can
/// come to rest no lower than this row tops the player out.
pub const VISIBLE_HEIGHT: i32 = 20;

/// The color code of an empty cell (also the "no piece" code of the hold slot).
pub const EMPTY: u8 = 7;

/// The color code written into garbage lines.
pub const GARBAGE_COLOR: u8 = 2;

/// Number of piece kinds: I, J, L, O, S, T, Z are codes 0 to 6.
pub const PIECE_KINDS: u8 = 7;

/// The code of the I piece.
pub const CODE_I: u8 = 0;

/// The code of the O piece.
pub const CODE_O: u8 = 3;

/// Where a new piece's bounding box is placed.
pub const SPAWN_X: i32 = 3;

/// Where a new piece's bounding box is placed.
pub const SPAWN_Y: i32 = 20;

/// Side of the square bounding box of a piece kind.
pub open spec fn box_size(code: int) -> int {
    if code == 0 { 4 } else { 3 }
}

/// The cells of each piece kind in its spawn orientation, inside the box.
pub open spec fn spawn_cell(code: int, i: int) -> (int, int) {
    if code == 0 {
        // I: a horizontal bar in the second row from the top of its 4x4 box
        if i == 0 { (0, 2) } else if i == 1 { (1, 2) } else if i == 2 { (2, 2) } else { (3, 2) }
    } else if code == 1 {
        // J
        if i == 0 { (0, 2) } else if i == 1 { (0, 1) } else if i == 2 { (1, 1) } else { (2, 1) }
    } else if code == 2 {
        // L
        if i == 0 { (2, 2) } else if i == 1 { (0, 1) } else if i == 2 { (1, 1) } else { (2, 1) }
    } else if code == 3 {
        // O
        if i == 0 { (1, 2) } else if i == 1 { (2, 2) } else if i == 2 { (1, 1) } else { (2, 1) }
    } else if code == 4 {
        // S
        if i == 0 { (1, 2) } else if i == 1 { (2, 2) } else if i == 2 { (0, 1) } else { (1, 1) }
    } else if code == 5 {
        // T
        if i == 0 { (1, 2) } else if i == 1 { (0, 1) } else if i == 2 { (1, 1) } else { (2, 1) }
    } else {
        // Z
        if i == 0 { (0, 2) } else if i == 1 { (1, 2) } else if i == 2 { (1, 1) } else { (2, 1) }
    }
}

/// A cell of an `n`x`n` box after `r` clockwise quarter turns of the box.
pub open spec fn turn_cell(c: (int, int), n: int, r: int) -> (int, int) {
    if r == 1 {
        (c.1, n - 1 - c.0)
    } else if r == 2 {
        (n - 1 - c.0, n - 1 - c.1)
    } else if r == 3 {
        (n - 1 - c.1, c.0)
    } else {
        c
    }
}

/// Cell `i` (of four) of piece `code` in orientation `rot` (0 = spawn,
/// 1 = one clockwise turn, ...), relative to the lower left corner of its box.
/// The O piece looks the same in every orientation.
pub open spec fn shape_cell(code: int, rot: int, i: int) -> (int, int) {
    if code == 3 {
        spawn_cell(code, i)
    } else {
        turn_cell(spawn_cell(code, i), box_size(code), rot)
    }
}

/// Every cell of every shape lies inside the 4x4 square at the box corner.
pub proof fn lemma_shape_cell_bounds(code: int, rot: int, i: int)
    requires
        0 <= code < 7,
        0 <= rot < 4,
        0 <= i < 4,
    ensures
        0 <= shape_cell(code, rot, i).0 < box_size(code),
        0 <= shape_cell(code, rot, i).1 < box_size(code),
{
}

/// The four cells of a shape are pairwise distinct.
pub proof fn lemma_shape_cells_distinct(code: int, rot: int, i: int, j: int)
    requires
        0 <= code < 7,
        0 <= rot < 4,
        0 <= i < 4,
        0 <= j < 4,
        i != j,
    ensures
        shape_cell(code, rot, i) != shape_cell(code, rot, j),
{
}

/// Executable form of `shape_cell`.
pub fn shape_offset(code: u8, rot: i8, i: usize) -> (r: (i32, i32))
    requires
        code < 7,
        0 <= rot < 4,
        i < 4,
    ensures
        r.0 == shape_cell(code as int, rot as int, i as int).0,
        r.1 == shape_cell(code as int, rot as int, i as int).1,
        0 <= r.0 < 4,
        0 <= r.1 < 4,
{
    proof {
        lemma_shape_cell_bounds(code as int, rot as int, i as int);
    }
    let (x, y): (i32, i32) = if code == 0 {
        if i == 0 { (0, 2) } else if i == 1 { (1, 2) } else if i == 2 { (2, 2) } else { (3, 2) }
    } else if code == 1 {
        if i == 0 { (0, 2) } else if i == 1 { (0, 1) } else if i == 2 { (1, 1) } else { (2, 1) }
    } else if code == 2 {
        if i == 0 { (2, 2) } else if i == 1 { (0, 1) } else if i == 2 { (1, 1) } else { (2, 1) }
    } else if code == 3 {
        if i == 0 { (1, 2) } else if i == 1 { (2, 2) } else if i == 2 { (1, 1) } else { (2, 1) }
    } else if code == 4 {
        if i == 0 { (1, 2) } else if i == 1 { (2, 2) } else if i == 2 { (0, 1) } else { (1, 1) }
    } else if code == 5 {
        if i == 0 { (1, 2) } else if i == 1 { (0, 1) } else if i == 2 { (1, 1) } else { (2, 1) }
    } else {
        if i == 0 { (0, 2) } else if i == 1 { (1, 2) } else if i == 2 { (1, 1) } else { (2, 1) }
    };
    if code == 3 {
        return (x, y);
    }
    let n: i32 = if code == 0 { 4 } else { 3 };
    if rot == 1 {
        (y, n - 1 - x)
    } else if rot == 2 {
        (n - 1 - x, n - 1 - y)
    } else if rot == 3 {
        (n - 1 - y, x)
    } else {
        (x, y)
    }
}

/// The orientation reached from `rot` by a turn of `dr` quarter turns
/// (1 = clockwise, -1 = counterclockwise, 2 = half turn).
pub open spec fn turned(rot: int, dr: int) -> int {
    (rot + dr + 4) % 4
}

/// A turn the game knows: clockwise, counterclockwise or half.
pub open spec fn valid_turn(dr: int) -> bool {
    dr == 1 || dr == -1 || dr == 2
}

/// How many kick offsets are tried for a turn of `dr`.
pub open spec fn kick_count(dr: int) -> int {
    if dr == 2 { 2 } else { 5 }
}

/// Kicks of J, L, S, T, Z when turning into the right-facing orientation.
pub open spec fn kick_to_right(k: int) -> (int, int) {
    if k == 0 { (0, 0) } else if k == 1 { (-1, 0) } else if k == 2 { (-1, 1) } else if k == 3 { (0, -2) } else { (-1, -2) }
}

/// Kicks of J, L, S, T, Z when turning into the left-facing orientation.
pub open spec fn kick_to_left(k: int) -> (int, int) {
    if k == 0 { (0, 0) } else if k == 1 { (1, 0) } else if k == 2 { (1, 1) } else if k == 3 { (0, -2) } else { (1, -2) }
}

/// Kicks of I from spawn to right, and from reversed to left.
pub open spec fn kick_i_first(k: int) -> (int, int) {
    if k == 0 { (0, 0) } else if k == 1 { (-2, 0) } else if k == 2 { (1, 0) } else if k == 3 { (-2, -1) } else { (1, 2) }
}

/// Kicks of I from right to reversed, and from spawn to left.
pub open spec fn kick_i_second(k: int) -> (int, int) {
    if k == 0 { (0, 0) } else if k == 1 { (-1, 0) } else if k == 2 { (2, 0) } else if k == 3 { (-1, 2) } else { (2, -1) }
}

/// The opposite offset.
pub open spec fn neg(c: (int, int)) -> (int, int) {
    (-c.0, -c.1)
}

/// The `k`-th offset tried when piece `code` turns by `dr` from orientation
/// `rot`: the standard rotation system's kick tables for quarter turns, and
/// "in place, then one row up" for half turns.
pub open spec fn kick(code: int, rot: int, dr: int, k: int) -> (int, int) {
    let to = turned(rot, dr);
    if dr == 2 {
        if k == 0 { (0, 0) } else { (0, 1) }
    } else if code == 0 {
        if (rot == 0 && to == 1) || (rot == 3 && to == 2) {
            kick_i_first(k)
        } else if (rot == 1 && to == 0) || (rot == 2 && to == 3) {
            neg(kick_i_first(k))
        } else if (rot == 1 && to == 2) || (rot == 0 && to == 3) {
            kick_i_second(k)
        } else {
            neg(kick_i_second(k))
        }
    } else if to == 1 {
        kick_to_right(k)
    } else if to == 3 {
        kick_to_left(k)
    } else if rot == 1 {
        neg(kick_to_right(k))
    } else {
        neg(kick_to_left(k))
    }
}

/// Executable form of `kick_count`.
pub fn kick_len(dr: i8) -> (r: usize)
    ensures
        r == kick_count(dr as int),
{
    if dr == 2 { 2 } else { 5 }
}

/// Executable form of `kick`.
pub fn kick_offset(code: u8, rot: i8, dr: i8, k: usize) -> (r: (i32, i32))
    requires
        code < 7,
        0 <= rot < 4,
        valid_turn(dr as int),
        k < kick_count(dr as int),
    ensures
        r.0 == kick(code as int, rot as int, dr as int, k as int).0,
        r.1 == kick(code as int, rot as int, dr as int, k as int).1,
        -2 <= r.0 <= 2,
        -2 <= r.1 <= 2,
{
    let to: i8 = (rot + dr + 4) % 4;
    if dr == 2 {
        return if k == 0 { (0, 0) } else { (0, 1) };
    }
    let (base, negate): ((i32, i32), bool) = if code == 0 {
        let first: (i32, i32) = if k == 0 { (0, 0) } else if k == 1 { (-2, 0) } else if k == 2 { (1, 0) } else if k == 3 { (-2, -1) } else { (1, 2) };
        let second: (i32, i32) = if k == 0 { (0, 0) } else if k == 1 { (-1, 0) } else if k == 2 { (2, 0) } else if k == 3 { (-1, 2) } else { (2, -1) };
        if (rot == 0 && to == 1) || (rot == 3 && to == 2) {
            (first, false)
        } else if (rot == 1 && to == 0) || (rot == 2 && to == 3) {
            (first, true)
        } else if (rot == 1 && to == 2) || (rot == 0 && to == 3) {
            (second, false)
        } else {
            (second, true)
        }
    } else {
        let right: (i32, i32) = if k == 0 { (0, 0) } else if k == 1 { (-1, 0) } else if k == 2 { (-1, 1) } else if k == 3 { (0, -2) } else { (-1, -2) };
        let left: (i32, i32) = if k == 0 { (0, 0) } else if k == 1 { (1, 0) } else if k == 2 { (1, 1) } else if k == 3 { (0, -2) } else { (1, -2) };
        if to == 1 {
            (right, false)
        } else if to == 3 {
            (left, false)
        } else if rot == 1 {
            (right, true)
        } else {
            (left, true)
        }
    };
    if negate { (-base.0, -base.1) } else { base }
}

/// The two corners of the 3x3 box on the side a piece in orientation `rot`
/// faces (up, right, down, left).  A twist is "regular" only when both are
/// taken.
pub open spec fn twist_corner(rot: int, j: int) -> (int, int) {
    if rot == 0 {
        if j == 0 { (0, 2) } else { (2, 2) }
    } else if rot == 1 {
        if j == 0 { (2, 2) } else { (2, 0) }
    } else if rot == 2 {
        if j == 0 { (0, 0) } else { (2, 0) }
    } else {
        if j == 0 { (0, 0) } else { (0, 2) }
    }
}

/// Executable form of `twist_corner`.
pub fn twist_corner_offset(rot: i8, j: usize) -> (r: (i32, i32))
    requires
        0 <= rot < 4,
        j < 2,
    ensures
        r.0 == twist_corner(rot as int, j as int).0,
        r.1 == twist_corner(rot as int, j as int).1,
        0 <= r.0 <= 2,
        0 <= r.1 <= 2,
{
    if rot == 0 {
        if j == 0 { (0, 2) } else { (2, 2) }
    } else if rot == 1 {
        if j == 0 { (2, 2) } else { (2, 0) }
    } else if rot == 2 {
        if j == 0 { (0, 0) } else { (2, 0) }
    } else {
        if j == 0 { (0, 0) } else { (0, 2) }
    }
}

} // verus!
