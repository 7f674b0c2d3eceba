//! A piece on the board: its kind, orientation and position.

use crate::rules::{
    lemma_shape_cell_bounds, shape_cell, shape_offset, turned, valid_turn, BOARD_HEIGHT, BOARD_WIDTH,
    EMPTY, PIECE_KINDS, SPAWN_X, SPAWN_Y,
};
use vstd::prelude::*;

verus! {

/// How far from the board a piece's box corner may lie.  A piece that fits
/// lies near the board; one pushed down by incoming garbage sinks a row per
/// line, and this window leaves room for that and for any step in between.
pub const POS_BOUND: i32 = 1073741824;

/// A piece: kind `code` (0 to 6), orientation `rotation` (0 to 3) and the
/// lower left corner `pos` of its bounding box.
#[derive(Clone, Copy, Debug)]
pub struct Block {
    pub code: u8,
    pub rotation: i8,
    pub pos: (i32, i32),
}

/// A cell of the board.
pub open spec fn inside(p: (int, int)) -> bool {
    0 <= p.0 < BOARD_WIDTH && 0 <= p.1 < BOARD_HEIGHT
}

/// Where cell `(x, y)` is kept in the row-major color vector.
pub open spec fn cell_index(x: int, y: int) -> int {
    y * BOARD_WIDTH + x
}

/// A cell of the board that holds no block.
pub open spec fn vacant(color: Seq<u8>, p: (int, int)) -> bool {
    inside(p) && color[cell_index(p.0, p.1)] == EMPTY
}

/// A box corner coordinate from which every cell of a piece, at most three
/// cells further, is still an `i32`.
pub open spec fn representable(c: int) -> bool {
    i32::MIN <= c <= i32::MAX - 3
}

impl Block {
    /// A known kind and orientation, and a position inside the window.
    pub open spec fn wf(self) -> bool {
        &&& self.code < PIECE_KINDS
        &&& 0 <= self.rotation < 4
        &&& -POS_BOUND <= self.pos.0 <= POS_BOUND
        &&& -POS_BOUND <= self.pos.1 <= POS_BOUND
    }

    /// A known kind and orientation, and a position whose cells can all be
    /// written as `i32` coordinates (where a piece may be tried before it is
    /// taken back).
    pub open spec fn sane(self) -> bool {
        &&& self.code < PIECE_KINDS
        &&& 0 <= self.rotation < 4
        &&& representable(self.pos.0 as int)
        &&& representable(self.pos.1 as int)
    }

    /// Cell `i` (0 to 3) of the piece on the board.
    pub open spec fn cell(self, i: int) -> (int, int) {
        (
            self.pos.0 + shape_cell(self.code as int, self.rotation as int, i).0,
            self.pos.1 + shape_cell(self.code as int, self.rotation as int, i).1,
        )
    }

    /// All four cells are on the board and empty.
    pub open spec fn fits(self, color: Seq<u8>) -> bool {
        forall|i: int| 0 <= i < 4 ==> vacant(color, #[trigger] self.cell(i))
    }

    /// The same piece moved by `(dx, dy)`.
    pub open spec fn moved(self, dx: int, dy: int) -> Block {
        Block { code: self.code, rotation: self.rotation, pos: ((self.pos.0 + dx) as i32, (self.pos.1 + dy) as i32) }
    }

    /// The same piece turned by `dr` in place.
    pub open spec fn turned_by(self, dr: int) -> Block {
        Block { code: self.code, rotation: turned(self.rotation as int, dr) as i8, pos: self.pos }
    }

    /// A new piece of kind `code` in spawn orientation at the spawn position.
    pub open spec fn spawned(code: u8) -> Block {
        Block { code, rotation: 0, pos: (SPAWN_X, SPAWN_Y) }
    }

    /// A new piece of kind `code` in spawn orientation at the spawn position.
    pub fn new(code: u8) -> (b: Block)
        ensures
            b == Block::spawned(code),
    {
        Block { code, rotation: 0, pos: (SPAWN_X, SPAWN_Y) }
    }

    /// Cell `i` of the piece on the board.
    pub fn cell_at(&self, i: usize) -> (r: (i32, i32))
        requires
            self.sane(),
            i < 4,
        ensures
            r.0 == self.cell(i as int).0,
            r.1 == self.cell(i as int).1,
    {
        let off = shape_offset(self.code, self.rotation, i);
        (self.pos.0 + off.0, self.pos.1 + off.1)
    }

    /// The four cells of the piece on the board.
    pub fn getpos(&self) -> (r: Vec<(i32, i32)>)
        requires
            self.wf(),
        ensures
            r@.len() == 4,
            forall|i: int| 0 <= i < 4 ==> r@[i].0 == self.cell(i).0 && r@[i].1 == self.cell(i).1,
    {
        let mut r: Vec<(i32, i32)> = Vec::new();
        let mut i: usize = 0;
        while i < 4
            invariant
                self.wf(),
                i <= 4,
                r@.len() == i,
                forall|j: int| 0 <= j < i ==> r@[j].0 == self.cell(j).0 && r@[j].1 == self.cell(j).1,
            decreases 4 - i,
        {
            r.push(self.cell_at(i));
            i += 1;
        }
        r
    }

    /// Turns the piece in place by `dr` quarter turns.
    pub fn rotate(&mut self, dr: i8)
        requires
            old(self).wf(),
            valid_turn(dr as int),
        ensures
            *final(self) == old(self).turned_by(dr as int),
            final(self).wf(),
    {
        self.rotation = (self.rotation + dr + 4) % 4;
    }

    /// The cells as eight bytes: x and y of each cell, taken modulo 256.
    pub open spec fn compressed(self) -> Seq<u8> {
        seq![
            self.cell(0).0 as u8, self.cell(0).1 as u8,
            self.cell(1).0 as u8, self.cell(1).1 as u8,
            self.cell(2).0 as u8, self.cell(2).1 as u8,
            self.cell(3).0 as u8, self.cell(3).1 as u8,
        ]
    }

    /// The cells as eight bytes (x and y of each cell, taken modulo 256) and
    /// the kind, as a display carries them.
    pub fn compress(&self) -> (r: ([u8; 8], u8))
        requires
            self.wf(),
        ensures
            r.0@ == self.compressed(),
            r.1 == self.code,
    {
        let c0 = self.cell_at(0);
        let c1 = self.cell_at(1);
        let c2 = self.cell_at(2);
        let c3 = self.cell_at(3);
        let a: [u8; 8] = [
            c0.0 as u8, c0.1 as u8, c1.0 as u8, c1.1 as u8,
            c2.0 as u8, c2.1 as u8, c3.0 as u8, c3.1 as u8,
        ];
        assert(a@ =~= seq![
            self.cell(0).0 as u8, self.cell(0).1 as u8,
            self.cell(1).0 as u8, self.cell(1).1 as u8,
            self.cell(2).0 as u8, self.cell(2).1 as u8,
            self.cell(3).0 as u8, self.cell(3).1 as u8,
        ]);
        (a, self.code)
    }
}

/// A piece whose cells are all on the board lies with its box corner
/// within three cells of the board.
pub proof fn lemma_fits_bounds(b: Block, color: Seq<u8>)
    requires
        b.code < PIECE_KINDS,
        0 <= b.rotation < 4,
        b.fits(color),
    ensures
        -3 <= b.pos.0 <= BOARD_WIDTH - 1,
        -3 <= b.pos.1 <= BOARD_HEIGHT - 1,
{
    lemma_shape_cell_bounds(b.code as int, b.rotation as int, 0);
    assert(vacant(color, b.cell(0)));
}

} // verus!
