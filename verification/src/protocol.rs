//! Messages between a board and the game that drives it.

use vstd::prelude::*;

verus! {

/// A key a player pressed.
#[derive(Clone, Copy, Debug, PartialEq, Eq, Structural)]
pub enum KeyType {
    Nothing,
    Hold,
    Left,
    LLeft,
    Right,
    RRight,
    HardDrop,
    SoftDrop,
    RotateReverse,
    Rotate,
    RotateFlip,
}

/// What a board is told: a key press, or an incoming attack of some lines.
#[derive(Clone, Copy, Debug, PartialEq, Eq, Structural)]
pub enum BoardMsg {
    KeyEvent(KeyType),
    Attacked(u32),
}

/// What a board answers to a message.
#[derive(Clone, Copy, Debug, PartialEq, Eq, Structural)]
pub enum BoardReply {
    /// The message was handled; the number is the attack sent out.
    Done(u32),
    /// The player topped out.
    Die,
    /// Too many attacks were pending; they were pushed into the field.
    GarbageOverflow,
}

/// The sound a client plays after a message.
#[derive(Clone, Copy, Debug, PartialEq, Eq, Structural)]
pub enum SoundEffect {
    Silence,
    Hold,
    /// A rotation: 0 failed, 1 plain, 2 twist.
    Rotate(u8),
    SoftDrop,
    PlainDrop,
    ClearDrop,
    AttackDrop,
    AttackDrop2,
    PerfectClear,
}

} // verus!
