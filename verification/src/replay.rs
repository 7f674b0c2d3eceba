//! The record of a game: every message a board got and every piece it dealt.

use crate::protocol::BoardMsg;
use vstd::prelude::*;

verus! {

/// The messages a board handled and the piece codes it spawned, in order.
pub struct Replay {
    pub operations: Vec<BoardMsg>,
    pub block_seq: Vec<u8>,
}

impl Replay {
    /// An empty record.
    pub fn new() -> (r: Replay)
        ensures
            r.operations@ == Seq::<BoardMsg>::empty(),
            r.block_seq@ == Seq::<u8>::empty(),
    {
        Replay { operations: Vec::new(), block_seq: Vec::new() }
    }

    /// Appends a handled message.
    pub fn push_operation(&mut self, msg: BoardMsg)
        ensures
            final(self).operations@ == old(self).operations@.push(msg),
            final(self).block_seq@ == old(self).block_seq@,
    {
        self.operations.push(msg);
    }

    /// Appends a spawned piece.
    pub fn push_block(&mut self, code: u8)
        ensures
            final(self).block_seq@ == old(self).block_seq@.push(code),
            final(self).operations@ == old(self).operations@,
    {
        self.block_seq.push(code);
    }
}

} // verus!
