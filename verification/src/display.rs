//! What a client is shown of a board.

use std::collections::VecDeque;
use vstd::prelude::*;

verus! {

/// A snapshot of a board for drawing: the cells (row-major, bottom row
/// first, ten per row), the falling piece and its landing place as cell
/// coordinates with their kinds, the hold slot, the next six pieces, the
/// attack counters and the pending garbage.
pub struct Display {
    pub id: i32,
    pub color: Vec<u8>,
    pub shadow_pos: [u8; 8],
    pub shadow_code: u8,
    pub tmp_pos: [u8; 8],
    pub tmp_code: u8,
    pub hold: u8,
    pub bag_preview: [u8; 6],
    pub cm: u32,
    pub tcm: u32,
    pub garbages: VecDeque<u32>,
}

impl Display {
    /// An empty display of board `id`: all 400 cells empty (7), no piece,
    /// an empty hold slot (7), counters at zero and nothing pending.
    pub fn new(id: i32) -> (d: Display)
        ensures
            d.id == id,
            d.color@ == Seq::new(400, |i: int| 7u8),
            d.shadow_pos@ == Seq::new(8, |i: int| 0u8),
            d.shadow_code == 0,
            d.tmp_pos@ == Seq::new(8, |i: int| 0u8),
            d.tmp_code == 0,
            d.hold == 7,
            d.bag_preview@ == Seq::new(6, |i: int| 0u8),
            d.cm == 0,
            d.tcm == 0,
            d.garbages@ == Seq::<u32>::empty(),
    {
        let color: Vec<u8> = vec![7u8; 400];
        let d = Display {
            id,
            color,
            shadow_pos: [0u8; 8],
            shadow_code: 0,
            tmp_pos: [0u8; 8],
            tmp_code: 0,
            hold: 7,
            bag_preview: [0u8; 6],
            cm: 0,
            tcm: 0,
            garbages: VecDeque::new(),
        };
        assert(d.color@ =~= Seq::new(400, |i: int| 7u8));
        assert(d.shadow_pos@ =~= Seq::new(8, |i: int| 0u8));
        assert(d.tmp_pos@ =~= Seq::new(8, |i: int| 0u8));
        assert(d.bag_preview@ =~= Seq::new(6, |i: int| 0u8));
        d
    }
}

} // verus!
