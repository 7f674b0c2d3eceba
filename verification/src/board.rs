//! A player's board: the field of cells, the falling piece and everything
//! that happens to them.

use crate::block::{cell_index, inside, lemma_fits_bounds, representable, vacant, Block, POS_BOUND};
use crate::display::Display;
use crate::garbage_attack_manager::{bump, cancel, difficult, lemma_cancel_conserves, raw_attack, GarbageAttackManager};
use crate::protocol::{BoardMsg, BoardReply, KeyType};
use crate::protocol::SoundEffect;
use crate::rules::{SPAWN_X, SPAWN_Y};
use crate::random_generator::{dealt, is_bag, random_below, random_u32, RandomGenerator};
use crate::replay::Replay;
use crate::rules::{
    kick, kick_count, kick_len, kick_offset, twist_corner, twist_corner_offset, valid_turn, BOARD_HEIGHT,
    BOARD_WIDTH, CODE_I, CODE_O, EMPTY, GARBAGE_COLOR, VISIBLE_HEIGHT,
};
use rand::rngs::StdRng;
use std::collections::HashSet;
use vstd::prelude::*;
use vstd::std_specs::hash::spec_hash_keys_iter;
use vstd::std_specs::iter::IteratorSpec;

verus! {

broadcast use vstd::std_specs::hash::group_hash_axioms;

/// At most this many attacks may wait before they are forced into the field.
pub const MAX_GARBAGE_LEN: usize = 5;

/// A player's board.  `color` holds the 40 rows of 10 cells, bottom row
/// first; a cell holds a piece code or `EMPTY`.  `shadow_block` is where the
/// falling `tmp_block` would land; `hold` is the held piece code or `EMPTY`;
/// `height` counts the rows in use.
pub struct Board {
    pub id: i32,
    pub tmp_block: Block,
    pub shadow_block: Block,
    pub rg: RandomGenerator,
    pub color: Vec<u8>,
    pub hold: u8,
    pub gaman: GarbageAttackManager,
    pub last_se: SoundEffect,
    pub height: i32,
    pub replay: Replay,
}

/// The piece, moved `k` steps of `dx` columns (a step moves it by `-dx`,
/// so a positive `dx` moves it left), stops there: every step up to `k`
/// fits, the next one does not.
pub open spec fn slides_to(color: Seq<u8>, b: Block, dx: int, k: int) -> bool {
    &&& k >= 0
    &&& forall|j: int| 1 <= j <= k ==> #[trigger] b.moved(-dx * j, 0).fits(color)
    &&& !b.moved(-dx * (k + 1), 0).fits(color)
}

/// The piece, moved `k` rows down, lands there: every row up to `k` fits,
/// the next one does not.
pub open spec fn lands_at(color: Seq<u8>, b: Block, k: int) -> bool {
    &&& k >= 0
    &&& forall|j: int| 1 <= j <= k ==> #[trigger] b.moved(0, -j).fits(color)
    &&& !b.moved(0, -(k + 1)).fits(color)
}

/// The piece cannot move left, right or up.
pub open spec fn immobile(color: Seq<u8>, b: Block) -> bool {
    &&& !b.moved(-1, 0).fits(color)
    &&& !b.moved(1, 0).fits(color)
    &&& !b.moved(0, 1).fits(color)
}

/// Corner `j` (0 or 1) that the piece faces, on the board.
pub open spec fn corner(b: Block, j: int) -> (int, int) {
    (b.pos.0 + twist_corner(b.rotation as int, j).0, b.pos.1 + twist_corner(b.rotation as int, j).1)
}

/// The twist a piece makes where it stands: 0 none, 1 mini, 2 regular.
/// The O piece never twists; any other piece twists when it cannot move
/// left, right or up.  An I twist is always mini; another piece's twist is
/// regular when both corners it faces are taken (off the board counts as
/// taken).
pub open spec fn twist_kind(color: Seq<u8>, b: Block) -> u32 {
    if b.code == CODE_O {
        0
    } else if !immobile(color, b) {
        0
    } else if b.code == CODE_I {
        1
    } else if vacant(color, corner(b, 0)) || vacant(color, corner(b, 1)) {
        1
    } else {
        2
    }
}

/// The piece turned by `dr` and shifted by kick `k`.
pub open spec fn kicked(b: Block, dr: int, k: int) -> Block {
    b.turned_by(dr).moved(kick(b.code as int, b.rotation as int, dr, k).0, kick(b.code as int, b.rotation as int, dr, k).1)
}

/// Kick `k` is the first that fits.
pub open spec fn first_fit(color: Seq<u8>, b: Block, dr: int, k: int) -> bool {
    &&& 0 <= k < kick_count(dr)
    &&& kicked(b, dr, k).fits(color)
    &&& forall|j: int| 0 <= j < k ==> !#[trigger] kicked(b, dr, j).fits(color)
}

/// No kick fits.
pub open spec fn no_kick_fits(color: Seq<u8>, b: Block, dr: int) -> bool {
    forall|j: int| 0 <= j < kick_count(dr) ==> !#[trigger] kicked(b, dr, j).fits(color)
}

/// The field after the piece's cells `0..n` that lie on the board were
/// colored with its code.
pub open spec fn place_cells(color: Seq<u8>, b: Block, n: nat) -> Seq<u8>
    decreases n,
{
    if n == 0 {
        color
    } else {
        let c = place_cells(color, b, (n - 1) as nat);
        let p = b.cell(n - 1);
        if inside(p) {
            c.update(cell_index(p.0, p.1), b.code)
        } else {
            c
        }
    }
}

/// The height after the piece's cells `0..n` were placed: raised to just
/// above the highest of them on the board.
pub open spec fn raised_height(h: int, b: Block, n: nat) -> int
    decreases n,
{
    if n == 0 {
        h
    } else {
        let h1 = raised_height(h, b, (n - 1) as nat);
        let p = b.cell(n - 1);
        if inside(p) && p.1 + 1 > h1 {
            p.1 + 1
        } else {
            h1
        }
    }
}

/// The rows of the piece's cells `0..n` that lie on the board.
pub open spec fn rows_of(b: Block, n: nat) -> Set<usize>
    decreases n,
{
    if n == 0 {
        Set::empty()
    } else {
        let r = rows_of(b, (n - 1) as nat);
        let p = b.cell(n - 1);
        if inside(p) {
            r.insert(p.1 as usize)
        } else {
            r
        }
    }
}

/// Every cell of row `y` is taken.
pub open spec fn row_full(color: Seq<u8>, y: int) -> bool {
    forall|x: int| 0 <= x < BOARD_WIDTH ==> color[#[trigger] cell_index(x, y)] != EMPTY
}

/// The rows among `lines` that are full.
pub open spec fn full_rows(color: Seq<u8>, lines: Set<usize>) -> Set<usize> {
    lines.filter(|y: usize| row_full(color, y as int))
}

/// The rows of the board that a line clear of `elims` keeps, bottom up.
pub open spec fn kept_rows(elims: Set<usize>) -> Seq<int> {
    Seq::new(BOARD_HEIGHT as nat, |i: int| i).filter(|i: int| !elims.contains(i as usize))
}

/// The field after clearing the rows `elims`: the kept rows move down,
/// in order, to the bottom; the rows above them keep what they held.
pub open spec fn cleared(color: Seq<u8>, elims: Set<usize>) -> Seq<u8> {
    Seq::new(
        (BOARD_WIDTH * BOARD_HEIGHT) as nat,
        |idx: int|
            if idx / (BOARD_WIDTH as int) < kept_rows(elims).len() {
                color[cell_index(idx % (BOARD_WIDTH as int), kept_rows(elims)[idx / (BOARD_WIDTH as int)])]
            } else {
                color[idx]
            },
    )
}

/// Facts on the rows a piece covers.
pub proof fn lemma_rows_of(b: Block, h: int, n: nat)
    requires
        n <= 4,
    ensures
        rows_of(b, n).finite(),
        forall|y: usize| #[trigger] rows_of(b, n).contains(y) ==> y < BOARD_HEIGHT && y < raised_height(h, b, n),
        h <= raised_height(h, b, n),
    decreases n,
{
    if n > 0 {
        lemma_rows_of(b, h, (n - 1) as nat);
    }
}

/// The board with the falling piece moved down to the row of its landing
/// place.
pub open spec fn soft_dropped(pre: Board) -> Board {
    pre.with_tmp(
        Block {
            code: pre.tmp_block.code,
            rotation: pre.tmp_block.rotation,
            pos: (pre.tmp_block.pos.0, pre.shadow_block.pos.1),
        },
    )
}

/// One step of the falling piece in direction `dx`: taken when it fits,
/// else nothing changes.
pub open spec fn shifted_once(pre: Board, post: Board, dx: int, moved: bool) -> bool {
    &&& moved == pre.tmp_block.moved(-dx, 0).fits(pre.color@)
    &&& post == (if moved { pre.with_tmp(pre.tmp_block.moved(-dx, 0)) } else { pre })
}

/// The falling piece moved in direction `dx` as far as it fits.
pub open spec fn slid(pre: Board, post: Board, dx: int) -> bool {
    exists|k: int|
        slides_to(pre.color@, pre.tmp_block, dx, k) && post == pre.with_tmp(
            #[trigger] pre.tmp_block.moved(-dx * k, 0),
        )
}

/// The landing place recomputed: the falling piece dropped straight down
/// as far as it fits.
pub open spec fn shadow_updated(pre: Board, post: Board) -> bool {
    exists|k: int|
        lands_at(pre.color@, pre.tmp_block, k) && post == pre.with_shadow(#[trigger] pre.tmp_block.moved(0, -k))
}

/// A turn by `dr`: with the first kick that fits, and a sound telling a
/// twist; when none fits (or the piece is an O), only the failure sound.
pub open spec fn rotated(pre: Board, post: Board, dr: int) -> bool {
    &&& pre.tmp_block.code == CODE_O || no_kick_fits(pre.color@, pre.tmp_block, dr) ==> post == pre.with_se(
        SoundEffect::Rotate(0),
    )
    &&& pre.tmp_block.code != CODE_O && !no_kick_fits(pre.color@, pre.tmp_block, dr) ==> exists|k: int|
        first_fit(pre.color@, pre.tmp_block, dr, k) && post == pre.with_tmp(#[trigger] kicked(pre.tmp_block, dr, k)).with_se(
            SoundEffect::Rotate(if twist_kind(pre.color@, kicked(pre.tmp_block, dr, k)) > 0 { 2u8 } else { 1u8 }),
        )
}

/// The next piece dealt, recorded, and placed at the spawn position.
pub open spec fn spawned_next(pre: Board, post: Board) -> bool {
    &&& post.tmp_block == Block::spawned(pre.rg.bag@[0])
    &&& dealt(pre.rg.bag@, post.rg.bag@)
    &&& post.replay.block_seq@ == pre.replay.block_seq@.push(pre.rg.bag@[0])
    &&& post.replay.operations@ == pre.replay.operations@
    &&& post == (Board { tmp_block: post.tmp_block, rg: post.rg, replay: post.replay, ..pre })
}

/// The falling piece swapped with the hold slot: held, and replaced by the
/// next piece when the slot was empty, else by a new piece of the held kind.
pub open spec fn held(pre: Board, post: Board) -> bool {
    let pre1 = Board { hold: pre.tmp_block.code, ..pre };
    &&& pre.hold == EMPTY ==> spawned_next(pre1, post)
    &&& pre.hold != EMPTY ==> post == pre1.with_tmp(Block::spawned(pre.hold))
}

impl Board {
    /// The field has 400 cells, each a piece code or empty; pieces and
    /// generator are well formed; the hold slot is a code or empty; the
    /// height is not negative.
    pub open spec fn wf_core(&self) -> bool {
        &&& self.color@.len() == BOARD_WIDTH * BOARD_HEIGHT
        &&& forall|i: int| 0 <= i < BOARD_WIDTH * BOARD_HEIGHT ==> #[trigger] self.color@[i] <= EMPTY
        &&& self.tmp_block.wf()
        &&& self.shadow_block.wf()
        &&& self.hold <= EMPTY
        &&& self.rg.wf()
        &&& 0 <= self.height
    }

    /// `wf_core`, and no more attacks pending than the game allows.
    pub open spec fn wf(&self) -> bool {
        &&& self.wf_core()
        &&& self.gaman.garbages@.len() <= MAX_GARBAGE_LEN
    }

    /// Room below the falling piece and below its landing place for the
    /// garbage lines one message can bring in, each of which may push the
    /// piece a row down.
    pub open spec fn room_to_sink(&self) -> bool {
        &&& self.tmp_block.pos.1 - 40 * (MAX_GARBAGE_LEN + 1) >= -POS_BOUND
        &&& self.shadow_block.pos.1 - 40 * (MAX_GARBAGE_LEN + 1) >= -POS_BOUND
    }

    /// The board with another falling piece.
    pub open spec fn with_tmp(self, b: Block) -> Board {
        Board { tmp_block: b, ..self }
    }

    /// The board with another landing place.
    pub open spec fn with_shadow(self, b: Block) -> Board {
        Board { shadow_block: b, ..self }
    }

    /// The board with another sound.
    pub open spec fn with_se(self, se: SoundEffect) -> Board {
        Board { last_se: se, ..self }
    }

    /// Whether `pos` is a cell of the board.
    pub fn is_pos_inside(&self, pos: (i32, i32)) -> (r: bool)
        ensures
            r == inside((pos.0 as int, pos.1 as int)),
    {
        if pos.0 < 0 || pos.1 < 0 {
            return false;
        }
        if pos.0 >= BOARD_WIDTH || pos.1 >= BOARD_HEIGHT {
            return false;
        }
        true
    }

    /// Whether `pos` is a cell of the board that holds no block.
    pub fn is_pos_vacant(&self, pos: (i32, i32)) -> (r: bool)
        requires
            self.color@.len() == BOARD_WIDTH * BOARD_HEIGHT,
        ensures
            r == vacant(self.color@, (pos.0 as int, pos.1 as int)),
    {
        if !self.is_pos_inside(pos) {
            return false;
        }
        self.color[(pos.1 * BOARD_WIDTH + pos.0) as usize] == EMPTY
    }

    /// Moves the falling piece one column (`dx` 1: left, -1: right) if it
    /// fits there.
    fn move1(&mut self, dx: i32) -> (moved: bool)
        requires
            old(self).wf_core(),
            representable(old(self).tmp_block.pos.0 - dx),
        ensures
            final(self).wf_core(),
            shifted_once(*old(self), *final(self), dx as int, moved),
    {
        self.tmp_block.pos.0 = self.tmp_block.pos.0 - dx;
        if !self.tmp_block.test(self) {
            self.tmp_block.pos.0 = self.tmp_block.pos.0 + dx;
            return false;
        }
        proof {
            lemma_fits_bounds(self.tmp_block, self.color@);
        }
        true
    }

    /// Moves the falling piece by `-dx` columns at a time as long as it fits
    /// (a step of 0 would never end).
    pub fn move2(&mut self, dx: i32)
        requires
            old(self).wf_core(),
            dx != 0,
            representable(old(self).tmp_block.pos.0 - dx),
            forall|x: int| -3 <= x < BOARD_WIDTH ==> #[trigger] representable(x - dx),
        ensures
            final(self).wf_core(),
            slid(*old(self), *final(self), dx as int),
    {
        let ghost b0 = self.tmp_block;
        let ghost k: int = 0;
        assert(b0.moved(-dx * 0, 0) == b0);
        loop
            invariant
                self.wf_core(),
                dx != 0,
                representable(b0.pos.0 - dx),
                forall|x: int| -3 <= x < BOARD_WIDTH ==> #[trigger] representable(x - dx),
                k == 0 || -3 <= self.tmp_block.pos.0 < BOARD_WIDTH,
                k >= 0,
                -POS_BOUND <= b0.pos.0 + (-dx * k) <= POS_BOUND,
                self.tmp_block == b0.moved(-dx * k, 0),
                *self == old(self).with_tmp(self.tmp_block),
                b0 == old(self).tmp_block,
                forall|j: int| 1 <= j <= k ==> #[trigger] b0.moved(-dx * j, 0).fits(self.color@),
            ensures
                slides_to(old(self).color@, b0, dx as int, k),
                *self == old(self).with_tmp(b0.moved(-dx * k, 0)),
            decreases (if dx > 0 { self.tmp_block.pos.0 + POS_BOUND } else { POS_BOUND - self.tmp_block.pos.0 }),
        {
            let ghost before = self.tmp_block;
            assert(-dx * (k + 1) == (-dx * k) + (-dx)) by (nonlinear_arith);
            assert(representable(self.tmp_block.pos.0 - dx)) by {
                if k != 0 {
                    assert(representable(self.tmp_block.pos.0 - dx));
                }
            }
            let moved = self.move1(dx);
            if !moved {
                assert(before.moved(-dx as int, 0) == b0.moved(-dx * (k + 1), 0));
                break;
            }
            proof {
                assert(before.moved(-dx as int, 0) == b0.moved(-dx * (k + 1), 0));
                lemma_fits_bounds(self.tmp_block, self.color@);
                k = k + 1;
            }
        }
    }
}

impl Block {
    /// Whether all four cells of the piece are on the board and empty.
    pub fn test(&self, board: &Board) -> (r: bool)
        requires
            self.sane(),
            board.color@.len() == BOARD_WIDTH * BOARD_HEIGHT,
        ensures
            r == self.fits(board.color@),
    {
        let mut i: usize = 0;
        while i < 4
            invariant
                self.sane(),
                board.color@.len() == BOARD_WIDTH * BOARD_HEIGHT,
                i <= 4,
                forall|j: int| 0 <= j < i ==> vacant(board.color@, #[trigger] self.cell(j)),
            decreases 4 - i,
        {
            let c = self.cell_at(i);
            if !board.is_pos_vacant(c) {
                return false;
            }
            i += 1;
        }
        true
    }
}


impl Board {
    /// Computes where the falling piece would land, straight down.  Returns
    /// true when that place is at or above the visible field: the player
    /// topped out.
    pub fn calc_shadow(&mut self) -> (dies: bool)
        requires
            old(self).wf_core(),
        ensures
            final(self).wf_core(),
            shadow_updated(*old(self), *final(self)),
            dies == (final(self).shadow_block.pos.1 >= VISIBLE_HEIGHT),
    {
        let ghost b0 = self.tmp_block;
        let ghost k: int = 0;
        self.shadow_block = self.tmp_block;
        assert(b0.moved(0, 0) == b0);
        loop
            invariant
                old(self).wf_core(),
                b0 == old(self).tmp_block,
                k >= 0,
                -POS_BOUND <= b0.pos.1 - k <= POS_BOUND,
                self.shadow_block == b0.moved(0, -k),
                *self == old(self).with_shadow(self.shadow_block),
                forall|j: int| 1 <= j <= k ==> #[trigger] b0.moved(0, -j).fits(self.color@),
            ensures
                lands_at(old(self).color@, b0, k),
                *self == old(self).with_shadow(b0.moved(0, -k)),
            decreases self.shadow_block.pos.1 + POS_BOUND,
        {
            let ghost before = self.shadow_block;
            self.shadow_block.pos.1 = self.shadow_block.pos.1 - 1;
            assert(self.shadow_block == b0.moved(0, -(k + 1)));
            if !self.shadow_block.test(self) {
                self.shadow_block.pos.1 = self.shadow_block.pos.1 + 1;
                assert(self.shadow_block == before);
                break;
            }
            proof {
                lemma_fits_bounds(self.shadow_block, self.color@);
                k = k + 1;
            }
        }
        self.shadow_block.pos.1 >= VISIBLE_HEIGHT
    }

    /// Moves the falling piece down to its landing place.  False when it is
    /// already there.
    fn soft_drop(&mut self) -> (moved: bool)
        requires
            old(self).wf_core(),
        ensures
            final(self).wf_core(),
            moved == (old(self).shadow_block.pos.1 != old(self).tmp_block.pos.1),
            *final(self) == soft_dropped(*old(self)),
    {
        if self.shadow_block.pos.1 == self.tmp_block.pos.1 {
            return false;
        }
        self.tmp_block.pos.1 = self.shadow_block.pos.1;
        true
    }

    /// Whether the falling piece can move neither left, right nor up.
    fn test_twist2(&self) -> (r: bool)
        requires
            self.wf_core(),
        ensures
            r == immobile(self.color@, self.tmp_block),
    {
        let mut b = self.tmp_block;
        b.pos.0 = b.pos.0 - 1;
        assert(b == self.tmp_block.moved(-1, 0));
        if b.test(self) {
            return false;
        }
        b.pos.0 = b.pos.0 + 2;
        assert(b == self.tmp_block.moved(1, 0));
        if b.test(self) {
            return false;
        }
        b.pos.0 = b.pos.0 - 1;
        b.pos.1 = b.pos.1 + 1;
        assert(b == self.tmp_block.moved(0, 1));
        if b.test(self) {
            return false;
        }
        true
    }

    /// The twist the falling piece makes where it stands: 0 none, 1 mini,
    /// 2 regular.
    pub fn test_twist(&self) -> (r: u32)
        requires
            self.wf_core(),
        ensures
            r == twist_kind(self.color@, self.tmp_block),
            r == 2 ==> !vacant(self.color@, corner(self.tmp_block, 0)) && !vacant(self.color@, corner(self.tmp_block, 1)),
            self.tmp_block.code != CODE_O && self.tmp_block.code != CODE_I && immobile(self.color@, self.tmp_block) && (
            vacant(self.color@, corner(self.tmp_block, 0)) || vacant(self.color@, corner(self.tmp_block, 1))) ==> r == 1,
    {
        if self.tmp_block.code == CODE_O {
            return 0;
        }
        if !self.test_twist2() {
            return 0;
        }
        if self.tmp_block.code == CODE_I {
            return 1;
        }
        let mut j: usize = 0;
        while j < 2
            invariant
                self.wf_core(),
                self.tmp_block.code != CODE_O,
                self.tmp_block.code != CODE_I,
                immobile(self.color@, self.tmp_block),
                j <= 2,
                forall|i: int| 0 <= i < j ==> !vacant(self.color@, #[trigger] corner(self.tmp_block, i)),
            decreases 2 - j,
        {
            let off = twist_corner_offset(self.tmp_block.rotation, j);
            let check = (self.tmp_block.pos.0 + off.0, self.tmp_block.pos.1 + off.1);
            assert(check.0 as int == corner(self.tmp_block, j as int).0);
            assert(check.1 as int == corner(self.tmp_block, j as int).1);
            assert(j == 0 || j == 1);
            if self.is_pos_vacant(check) {
                return 1;
            }
            j += 1;
        }
        2
    }

    /// Turns the falling piece by `dr`, trying the kicks in order; returns
    /// 0 when none fits (the piece is then left at the last kick tried; an O
    /// piece is never turned), else 1, or 2 when the turned piece twists.
    fn rotate2(&mut self, dr: i8) -> (r: u8)
        requires
            old(self).wf_core(),
            valid_turn(dr as int),
        ensures
            *final(self) == old(self).with_tmp(final(self).tmp_block),
            final(self).tmp_block.sane(),
            old(self).tmp_block.code == CODE_O ==> r == 0 && *final(self) == *old(self),
            r == 0 && old(self).tmp_block.code != CODE_O ==> final(self).tmp_block == kicked(
                old(self).tmp_block,
                dr as int,
                kick_count(dr as int) - 1,
            ),
            r == 0 ==> old(self).tmp_block.code == CODE_O || no_kick_fits(old(self).color@, old(self).tmp_block, dr as int),
            r != 0 ==> old(self).tmp_block.code != CODE_O && exists|k: int|
                first_fit(old(self).color@, old(self).tmp_block, dr as int, k) && final(self).tmp_block
                    == #[trigger] kicked(old(self).tmp_block, dr as int, k) && r == (if twist_kind(
                    old(self).color@,
                    kicked(old(self).tmp_block, dr as int, k),
                ) > 0 {
                    2u8
                } else {
                    1u8
                }),
    {
        let code = self.tmp_block.code;
        let rotation = self.tmp_block.rotation;
        if code == CODE_O {
            return 0;
        }
        let ghost b0 = self.tmp_block;
        self.tmp_block.rotate(dr);
        let std_pos = self.tmp_block.pos;
        let n = kick_len(dr);
        let mut k: usize = 0;
        while k < n
            invariant
                old(self).wf_core(),
                b0 == old(self).tmp_block,
                code == b0.code,
                code != CODE_O,
                rotation == b0.rotation,
                valid_turn(dr as int),
                n == kick_count(dr as int),
                k <= n,
                std_pos == b0.pos,
                self.tmp_block.code == b0.code,
                self.tmp_block.rotation == b0.turned_by(dr as int).rotation,
                self.tmp_block.sane(),
                *self == old(self).with_tmp(self.tmp_block),
                k > 0 ==> self.tmp_block == kicked(b0, dr as int, k - 1),
                forall|j: int| 0 <= j < k ==> !#[trigger] kicked(b0, dr as int, j).fits(self.color@),
            decreases n - k,
        {
            let off = kick_offset(code, rotation, dr, k);
            self.tmp_block.pos = (std_pos.0 + off.0, std_pos.1 + off.1);
            assert(self.tmp_block == kicked(b0, dr as int, k as int));
            assert(self.color@ == old(self).color@);
            if self.tmp_block.test(self) {
                proof {
                    lemma_fits_bounds(self.tmp_block, self.color@);
                    assert(first_fit(old(self).color@, b0, dr as int, k as int));
                }
                let t = self.test_twist();
                let r: u8 = if t > 0 { 2 } else { 1 };
                return r;
            }
            k += 1;
        }
        assert(self.color@ == old(self).color@);
        0
    }

    /// Turns the falling piece by `dr` (1 clockwise, -1 counterclockwise, 2
    /// half) at the first kick that fits, or leaves it when none does; the
    /// sound tells which happened.
    fn rotate(&mut self, dr: i8)
        requires
            old(self).wf_core(),
            valid_turn(dr as int),
        ensures
            final(self).wf_core(),
            rotated(*old(self), *final(self), dr as int),
    {
        let revert_block = self.tmp_block;
        let ret = self.rotate2(dr);
        if ret == 0 {
            self.tmp_block = revert_block;
        }
        self.last_se = SoundEffect::Rotate(ret);
        proof {
            if ret != 0 {
                let k = choose|k: int|
                    first_fit(old(self).color@, old(self).tmp_block, dr as int, k) && self.tmp_block
                        == #[trigger] kicked(old(self).tmp_block, dr as int, k);
                lemma_fits_bounds(self.tmp_block, self.color@);
                assert(!no_kick_fits(old(self).color@, old(self).tmp_block, dr as int));
            }
        }
    }
}


impl Board {
    /// Deals the next piece from the generator, records it and makes it the
    /// falling piece at the spawn position.
    fn spawn_block(&mut self)
        requires
            old(self).wf_core(),
        ensures
            final(self).wf_core(),
            spawned_next(*old(self), *final(self)),
    {
        let code = self.rg.get();
        self.replay.push_block(code);
        self.tmp_block = Block::new(code);
    }

    /// Swaps the falling piece with the held one.  With an empty hold slot
    /// the falling piece is held and the next piece is dealt; otherwise the
    /// held kind starts over at the spawn position.
    fn hold(&mut self)
        requires
            old(self).wf_core(),
        ensures
            final(self).wf_core(),
            held(*old(self), *final(self)),
            final(self).tmp_block.pos == (SPAWN_X, SPAWN_Y),
            final(self).tmp_block.rotation == 0,
    {
        if self.hold == EMPTY {
            self.hold = self.tmp_block.code;
            self.spawn_block();
        } else {
            let tmp = self.hold;
            self.hold = self.tmp_block.code;
            self.tmp_block = Block::new(tmp);
        }
    }

    /// Writes the falling piece into the field (its cells that lie on the
    /// board), raises the height to cover them, and returns their rows.
    fn hard_drop_set_color(&mut self) -> (lines: HashSet<usize>)
        requires
            old(self).wf_core(),
        ensures
            final(self).wf_core(),
            final(self).color@ == place_cells(old(self).color@, old(self).tmp_block, 4),
            final(self).height == raised_height(old(self).height as int, old(self).tmp_block, 4),
            lines@ == rows_of(old(self).tmp_block, 4),
            *final(self) == (Board { color: final(self).color, height: final(self).height, ..*old(self) }),
    {
        let mut lines: HashSet<usize> = HashSet::new();
        let mut i: usize = 0;
        while i < 4
            invariant
                old(self).wf_core(),
                i <= 4,
                self.color@ == place_cells(old(self).color@, old(self).tmp_block, i as nat),
                self.height == raised_height(old(self).height as int, old(self).tmp_block, i as nat),
                lines@ == rows_of(old(self).tmp_block, i as nat),
                *self == (Board { color: self.color, height: self.height, ..*old(self) }),
                self.color@.len() == BOARD_WIDTH * BOARD_HEIGHT,
                forall|j: int| 0 <= j < BOARD_WIDTH * BOARD_HEIGHT ==> #[trigger] self.color@[j] <= EMPTY,
                0 <= self.height <= (if old(self).height > BOARD_HEIGHT { old(self).height as int } else { BOARD_HEIGHT as int }),
            decreases 4 - i,
        {
            let p = self.tmp_block.cell_at(i);
            if self.is_pos_inside(p) {
                let px = p.0 as usize;
                let py = p.1 as usize;
                if py + 1 > self.height as usize {
                    self.height = py as i32 + 1;
                }
                lines.insert(py);
                let code = self.tmp_block.code;
                self.color.set(py * 10 + px, code);
            }
            i += 1;
        }
        lines
    }

    /// The rows among `ln` that are full, each once, in the order `ln`
    /// hands them out.
    fn checkline(&self, ln: HashSet<usize>) -> (elims: Vec<usize>)
        requires
            self.wf_core(),
            forall|y: usize| #[trigger] ln@.contains(y) ==> y < BOARD_HEIGHT,
        ensures
            elims@.no_duplicates(),
            elims@.to_set() == full_rows(self.color@, ln@),
            forall|i: int, x: int|
                0 <= i < elims@.len() && 0 <= x < BOARD_WIDTH ==> self.color@[#[trigger] cell_index(x, elims@[i] as int)]
                    != EMPTY,
            forall|y: usize, x: int|
                #![trigger elims@.contains(y), cell_index(x, y as int)]
                0 <= x < BOARD_WIDTH && self.color@[cell_index(x, y as int)] == EMPTY ==> !elims@.contains(y),
    {
        let mut elims: Vec<usize> = Vec::new();
        let ghost ks = spec_hash_keys_iter(&ln).remaining();
        for each_ln in it: ln.iter()
            invariant
                self.wf_core(),
                it.seq() == ks,
                ks.unref().to_set() == ln@,
                ks.no_duplicates(),
                forall|y: usize| #[trigger] ln@.contains(y) ==> y < BOARD_HEIGHT,
                elims@.no_duplicates(),
                forall|y: usize|
                    #[trigger] elims@.contains(y) <==> (exists|j: int| 0 <= j < it.index() && *ks[j] == y) && row_full(
                        self.color@,
                        y as int,
                    ),
        {
            let ghost idx = it.index() as int;
            let row = *each_ln;
            proof {
                assert(ks.unref()[idx] == row);
                assert(ks.unref().contains(row));
                assert(ln@.contains(row));
            }
            let mut flag = true;
            let mut x: usize = 0;
            while x < 10
                invariant
                    self.wf_core(),
                    row < BOARD_HEIGHT,
                    x <= 10,
                    flag == (forall|z: int| 0 <= z < x ==> self.color@[#[trigger] cell_index(z, row as int)] != EMPTY),
                decreases 10 - x,
            {
                assert(row * 10 + x == cell_index(x as int, row as int));
                if self.color[row * 10 + x] == EMPTY {
                    flag = false;
                }
                x += 1;
            }
            proof {
                assert forall|j: int| 0 <= j < idx implies *ks[j] != row by {
                    assert(ks[j] != ks[idx]);
                }
                assert(!elims@.contains(row));
            }
            let ghost old_el = elims@;
            if flag {
                elims.push(row);
                proof {
                    assert forall|a: int, b: int| 0 <= a < elims@.len() && 0 <= b < elims@.len() && a != b implies elims@[a]
                        != elims@[b] by {
                        if a < old_el.len() && b < old_el.len() {
                            assert(old_el[a] != old_el[b]);
                        } else if a < old_el.len() {
                            assert(old_el.contains(old_el[a]));
                        } else {
                            assert(old_el.contains(old_el[b]));
                        }
                    }
                }
            }
            proof {
                assert forall|y: usize| #[trigger] elims@.contains(y) <==> old_el.contains(y) || (flag && y == row) by {
                    if flag {
                        assert(elims@ == old_el.push(row));
                        if elims@.contains(y) && !old_el.contains(y) {
                            let k = choose|k: int| 0 <= k < elims@.len() && elims@[k] == y;
                            if k < old_el.len() {
                                assert(old_el[k] == y);
                            }
                        }
                        if old_el.contains(y) {
                            let k = choose|k: int| 0 <= k < old_el.len() && old_el[k] == y;
                            assert(elims@[k] == y);
                        }
                        if y == row {
                            assert(elims@[old_el.len() as int] == row);
                        }
                    } else {
                        assert(elims@ == old_el);
                    }
                }
                assert(flag == row_full(self.color@, row as int));
                assert forall|y: usize|
                    #[trigger] elims@.contains(y) <==> (exists|j: int| 0 <= j < idx + 1 && *ks[j] == y) && row_full(
                        self.color@,
                        y as int,
                    ) by {
                    if y == row {
                        assert(*ks[idx] == y);
                    } else {
                        if exists|j: int| 0 <= j < idx + 1 && *ks[j] == y {
                            let j = choose|j: int| 0 <= j < idx + 1 && *ks[j] == y;
                            assert(j < idx);
                        }
                    }
                }
            }
        }
        proof {
            assert forall|y: usize| elims@.to_set().contains(y) <==> full_rows(self.color@, ln@).contains(y) by {
                if ln@.contains(y) {
                    assert(ks.unref().contains(y));
                    let j = choose|j: int| 0 <= j < ks.unref().len() && ks.unref()[j] == y;
                    assert(*ks[j] == y);
                }
                if exists|j: int| 0 <= j < ks.len() && *ks[j] == y {
                    let j = choose|j: int| 0 <= j < ks.len() && *ks[j] == y;
                    assert(ks.unref()[j] == y);
                    assert(ks.unref().contains(y));
                }
            }
            assert(elims@.to_set() =~= full_rows(self.color@, ln@));
            assert forall|i: int, x: int|
                0 <= i < elims@.len() && 0 <= x < BOARD_WIDTH implies self.color@[#[trigger] cell_index(
                x,
                elims@[i] as int,
            )] != EMPTY by {
                assert(elims@.to_set().contains(elims@[i]));
                assert(row_full(self.color@, elims@[i] as int));
            }
            assert forall|y: usize, x: int|
                #![trigger elims@.contains(y), cell_index(x, y as int)]
                0 <= x < BOARD_WIDTH && self.color@[cell_index(x, y as int)] == EMPTY implies !elims@.contains(y) by {
                if elims@.contains(y) {
                    assert(elims@.to_set().contains(y));
                    assert(row_full(self.color@, y as int));
                }
            }
        }
        elims
    }
}

/// Whether `v` holds `x`.
fn vec_contains(v: &Vec<usize>, x: usize) -> (r: bool)
    ensures
        r == v@.contains(x),
{
    let mut i: usize = 0;
    while i < v.len()
        invariant
            i <= v@.len(),
            forall|j: int| 0 <= j < i ==> v@[j] != x,
        decreases v@.len() - i,
    {
        if v[i] == x {
            return true;
        }
        i += 1;
    }
    false
}


/// The rows below `i` that a line clear of `elims` keeps, bottom up.
pub open spec fn kept_below(elims: Set<usize>, i: int) -> Seq<int> {
    Seq::new(i as nat, |j: int| j).filter(|j: int| !elims.contains(j as usize))
}

proof fn lemma_kept_below_step(elims: Set<usize>, i: int)
    requires
        0 <= i,
    ensures
        kept_below(elims, i + 1) == (if elims.contains(i as usize) {
            kept_below(elims, i)
        } else {
            kept_below(elims, i).push(i)
        }),
        kept_below(elims, i).len() <= i,
    decreases i,
{
    let f = |j: int| j;
    assert(Seq::new((i + 1) as nat, f).drop_last() =~= Seq::new(i as nat, f));
    reveal_with_fuel(Seq::filter, 1);
    if i > 0 {
        lemma_kept_below_step(elims, i - 1);
    }
}

proof fn lemma_kept_below_bounds(elims: Set<usize>, i: int)
    requires
        0 <= i,
    ensures
        forall|y: int| 0 <= y < kept_below(elims, i).len() ==> 0 <= #[trigger] kept_below(elims, i)[y] < i,
    decreases i,
{
    if i > 0 {
        lemma_kept_below_bounds(elims, i - 1);
        lemma_kept_below_step(elims, i - 1);
    }
}

impl Board {
    /// Clears the rows `elims`: every other row moves down by the number of
    /// cleared rows below it.  The topmost rows, which nothing moves into,
    /// keep what they held.
    fn proc_elim(&mut self, elims: Vec<usize>)
        requires
            old(self).wf_core(),
        ensures
            final(self).wf_core(),
            final(self).color@ == cleared(old(self).color@, elims@.to_set()),
            *final(self) == (Board { color: final(self).color, ..*old(self) }),
    {
        let ghost es = elims@.to_set();
        proof {
            broadcast use vstd::set::group_set_axioms;
        }
        let mut movedown: usize = 0;
        let mut i: usize = 0;
        while i < 40
            invariant
                old(self).wf_core(),
                i <= 40,
                *self == (Board { color: self.color, ..*old(self) }),
                self.color@.len() == BOARD_WIDTH * BOARD_HEIGHT,
                forall|j: int| 0 <= j < BOARD_WIDTH * BOARD_HEIGHT ==> #[trigger] self.color@[j] <= EMPTY,
                es == elims@.to_set(),
                movedown == i - kept_below(es, i as int).len(),
                forall|x: int, y: int|
                    0 <= x < BOARD_WIDTH && 0 <= y < kept_below(es, i as int).len() ==> self.color@[#[trigger] cell_index(x, y)]
                        == old(self).color@[cell_index(x, kept_below(es, i as int)[y])],
                forall|x: int, y: int|
                    0 <= x < BOARD_WIDTH && kept_below(es, i as int).len() <= y < BOARD_HEIGHT
                        ==> self.color@[#[trigger] cell_index(x, y)] == old(self).color@[cell_index(x, y)],
            decreases 40 - i,
        {
            proof {
                lemma_kept_below_step(es, i as int);
                lemma_kept_below_bounds(es, i as int);
            }
            let ghost k = kept_below(es, i as int);
            let flag = vec_contains(&elims, i);
            assert(flag == es.contains(i));
            if flag {
                movedown += 1;
            } else if movedown > 0 {
                let d = i - movedown;
                let ghost c0 = self.color@;
                let mut x: usize = 0;
                while x < 10
                    invariant
                        x <= 10,
                        d < i < 40,
                        self.color@.len() == BOARD_WIDTH * BOARD_HEIGHT,
                        forall|j: int| 0 <= j < BOARD_WIDTH * BOARD_HEIGHT ==> #[trigger] self.color@[j] <= EMPTY,
                        forall|j: int| 0 <= j < BOARD_WIDTH * BOARD_HEIGHT && !(d * 10 <= j < d * 10 + x) ==> #[trigger] self.color@[j] == c0[j],
                        forall|z: int| 0 <= z < x ==> self.color@[#[trigger] cell_index(z, d as int)] == c0[cell_index(z, i as int)],
                        *self == (Board { color: self.color, ..*old(self) }),
                    decreases 10 - x,
                {
                    let v = self.color[i * 10 + x];
                    self.color.set(d * 10 + x, v);
                    x += 1;
                }
                proof {
                    assert forall|x: int, y: int|
                        0 <= x < BOARD_WIDTH && 0 <= y < kept_below(es, i + 1).len() implies self.color@[#[trigger] cell_index(x, y)]
                            == old(self).color@[cell_index(x, kept_below(es, i + 1)[y])] by {
                        if y < k.len() {
                            assert(c0[cell_index(x, y)] == old(self).color@[cell_index(x, k[y])]);
                        } else {
                            assert(y == d);
                            assert(c0[cell_index(x, i as int)] == old(self).color@[cell_index(x, i as int)]);
                        }
                    }
                    assert forall|x: int, y: int|
                        0 <= x < BOARD_WIDTH && kept_below(es, i + 1).len() <= y < BOARD_HEIGHT
                            implies self.color@[#[trigger] cell_index(x, y)] == old(self).color@[cell_index(x, y)] by {
                        assert(c0[cell_index(x, y)] == old(self).color@[cell_index(x, y)]);
                    }
                }
            }
            i += 1;
        }
        proof {
            assert(kept_below(es, 40) == kept_rows(es));
            let kept = kept_rows(es);
            assert forall|idx: int| 0 <= idx < BOARD_WIDTH * BOARD_HEIGHT implies #[trigger] self.color@[idx]
                == cleared(old(self).color@, elims@.to_set())[idx] by {
                let x = idx % 10;
                let y = idx / 10;
                assert(idx == cell_index(x, y));
                if y < kept.len() {
                    assert(self.color@[cell_index(x, y)] == old(self).color@[cell_index(x, kept[y])]);
                }
            }
            assert(self.color@ =~= cleared(old(self).color@, elims@.to_set()));
        }
    }
}


/// A garbage row keeps its hole where the row below has it unless a draw of
/// 24 random bits (a uniform draw from [0, 1) at single precision) reaches
/// 0.6, that is, unless the 24 bits are at least this value.
pub const SAME_LINE_THRESHOLD: u32 = 10066330;

/// The hole of the next garbage line, given the hole `prev` of the line
/// below and a random `draw`: the same column unless the draw's top 24 bits
/// reach `SAME_LINE_THRESHOLD`, in which case a new column is drawn.
pub fn next_hole(rng: &mut StdRng, prev: usize, draw: u32) -> (h: usize)
    requires
        prev < BOARD_WIDTH,
    ensures
        h < BOARD_WIDTH,
        (draw >> 8) < SAME_LINE_THRESHOLD ==> h == prev,
{
    if (draw >> 8) >= SAME_LINE_THRESHOLD {
        random_below(rng, 10)
    } else {
        prev
    }
}

/// Rows an attack of `amount` lines pushes in: at most the board's height.
pub open spec fn garbage_count(amount: u32) -> int {
    if amount > 40 { 40 } else { amount as int }
}

/// Rows the attacks `q` push in, in all.
pub open spec fn garbage_rows(q: Seq<u32>) -> int
    decreases q.len(),
{
    if q.len() == 0 {
        0
    } else {
        garbage_rows(q.drop_last()) + garbage_count(q.last())
    }
}

/// The field with every row moved up by `count`: the top `count` rows drop
/// out, and the bottom `count` rows still hold what they held.
pub open spec fn shifted_up(color: Seq<u8>, count: int) -> Seq<u8> {
    Seq::new(
        color.len(),
        |idx: int| if idx >= count * BOARD_WIDTH { color[idx - count * BOARD_WIDTH] } else { color[idx] },
    )
}

/// The field with row `y` made a garbage line whose only hole is column
/// `hole`.
pub open spec fn garbage_line(color: Seq<u8>, y: int, hole: int) -> Seq<u8> {
    Seq::new(
        color.len(),
        |idx: int|
            if y * BOARD_WIDTH <= idx < y * BOARD_WIDTH + BOARD_WIDTH {
                if idx == cell_index(hole, y) { EMPTY } else { GARBAGE_COLOR }
            } else {
                color[idx]
            },
    )
}

/// The falling piece after a garbage line came in under it: where it no
/// longer fits it goes one row down.
pub open spec fn sink(color: Seq<u8>, b: Block) -> Block {
    if b.fits(color) { b } else { b.moved(0, -1) }
}

/// Field and falling piece after the garbage lines `0..n` with holes
/// `holes` were written bottom up, the piece adjusted after each.
pub open spec fn fill_garbage(color: Seq<u8>, b: Block, holes: Seq<usize>, n: nat) -> (Seq<u8>, Block)
    decreases n,
{
    if n == 0 {
        (color, b)
    } else {
        let prev = fill_garbage(color, b, holes, (n - 1) as nat);
        let c = garbage_line(prev.0, n - 1, holes[n - 1] as int);
        (c, sink(c, prev.1))
    }
}

/// Field and falling piece after one attack: everything moves up by one row
/// per hole, and the bottom rows become garbage lines with those holes.
pub open spec fn add_garbage(color: Seq<u8>, b: Block, holes: Seq<usize>) -> (Seq<u8>, Block) {
    fill_garbage(shifted_up(color, holes.len() as int), b, holes, holes.len())
}

/// Field and falling piece after the attacks whose holes are `hs`, in order.
pub open spec fn apply_garbage(color: Seq<u8>, b: Block, hs: Seq<Seq<usize>>) -> (Seq<u8>, Block)
    decreases hs.len(),
{
    if hs.len() == 0 {
        (color, b)
    } else {
        let prev = apply_garbage(color, b, hs.drop_last());
        add_garbage(prev.0, prev.1, hs.last())
    }
}

/// `hs` gives one hole per row for each of the attacks `q`, each hole a
/// column of the board.
pub open spec fn holes_fit(hs: Seq<Seq<usize>>, q: Seq<u32>) -> bool {
    &&& hs.len() == q.len()
    &&& forall|i: int| 0 <= i < hs.len() ==> (#[trigger] hs[i]).len() == garbage_count(q[i])
    &&& forall|i: int, j: int| 0 <= i < hs.len() && 0 <= j < hs[i].len() ==> #[trigger] hs[i][j] < BOARD_WIDTH
}

/// The sound of a drop: a plain drop without a clear; else by the attack
/// (four or more, one or more, none), and a perfect clear when the height
/// is 0.
pub open spec fn attack_sound(atk: u32, line_clear: u32, height: int) -> SoundEffect {
    if line_clear == 0 {
        SoundEffect::PlainDrop
    } else if height == 0 {
        SoundEffect::PerfectClear
    } else if atk >= 4 {
        SoundEffect::AttackDrop2
    } else if atk >= 1 {
        SoundEffect::AttackDrop
    } else {
        SoundEffect::ClearDrop
    }
}

impl Board {
    /// The sound of a drop that cleared `line_clear` lines and sent `atk`.
    fn attack_se(&self, atk: u32, line_clear: u32) -> (se: SoundEffect)
        ensures
            se == attack_sound(atk, line_clear, self.height as int),
    {
        if line_clear == 0 {
            return SoundEffect::PlainDrop;
        }
        let mut se = if atk >= 4 {
            SoundEffect::AttackDrop2
        } else if atk >= 1 {
            SoundEffect::AttackDrop
        } else {
            SoundEffect::ClearDrop
        };
        if self.height == 0 {
            se = SoundEffect::PerfectClear;
        }
        se
    }

    /// Pushes one attack into the field: everything moves up by one row per
    /// entry of `holes`, and the bottom rows become garbage lines whose only
    /// holes are those columns.  After each line the falling piece, where it
    /// no longer fits, goes one row down.
    pub fn insert_garbage(&mut self, holes: &Vec<usize>)
        requires
            old(self).wf_core(),
            old(self).tmp_block.pos.1 - holes@.len() >= -POS_BOUND,
            holes@.len() <= BOARD_HEIGHT,
            forall|i: int| 0 <= i < holes@.len() ==> #[trigger] holes@[i] < BOARD_WIDTH,
        ensures
            final(self).wf_core(),
            final(self).tmp_block.pos.1 >= old(self).tmp_block.pos.1 - holes@.len(),
            (final(self).color@, final(self).tmp_block) == add_garbage(old(self).color@, old(self).tmp_block, holes@),
            *final(self) == (Board { color: final(self).color, tmp_block: final(self).tmp_block, ..*old(self) }),
    {
        let count = holes.len();
        let ghost c0 = old(self).color@;
        let mut y: usize = 40;
        while y > count
            invariant
                old(self).wf_core(),
                count == holes@.len(),
                count <= y <= 40,
                *self == (Board { color: self.color, ..*old(self) }),
                self.color@.len() == BOARD_WIDTH * BOARD_HEIGHT,
                forall|j: int| 0 <= j < BOARD_WIDTH * BOARD_HEIGHT ==> #[trigger] self.color@[j] <= EMPTY,
                forall|j: int|
                    0 <= j < BOARD_WIDTH * BOARD_HEIGHT ==> #[trigger] self.color@[j] == (if j >= y * 10 {
                        c0[j - count * 10]
                    } else {
                        c0[j]
                    }),
            decreases y,
        {
            y -= 1;
            let ghost c1 = self.color@;
            let mut x: usize = 0;
            while x < 10
                invariant
                    count < y + 1 <= 40,
                    count <= y,
                    x <= 10,
                    self.color@.len() == BOARD_WIDTH * BOARD_HEIGHT,
                    forall|j: int| 0 <= j < BOARD_WIDTH * BOARD_HEIGHT ==> #[trigger] self.color@[j] <= EMPTY,
                    forall|j: int|
                        0 <= j < BOARD_WIDTH * BOARD_HEIGHT ==> #[trigger] self.color@[j] == (if y * 10 <= j < y * 10 + x {
                            c1[j - count * 10]
                        } else {
                            c1[j]
                        }),
                    *self == (Board { color: self.color, ..*old(self) }),
                decreases 10 - x,
            {
                let v = self.color[(y - count) * 10 + x];
                self.color.set(y * 10 + x, v);
                x += 1;
            }
        }
        assert(self.color@ =~= shifted_up(c0, count as int));
        let mut r: usize = 0;
        while r < count
            invariant
                old(self).wf_core(),
                count == holes@.len(),
                count <= 40,
                forall|i: int| 0 <= i < holes@.len() ==> #[trigger] holes@[i] < BOARD_WIDTH,
                r <= count,
                self.wf_core(),
                old(self).tmp_block.pos.1 - count >= -POS_BOUND,
                self.tmp_block.pos.1 >= old(self).tmp_block.pos.1 - r,
                *self == (Board { color: self.color, tmp_block: self.tmp_block, ..*old(self) }),
                (self.color@, self.tmp_block) == fill_garbage(shifted_up(c0, count as int), old(self).tmp_block, holes@, r as nat),
            decreases count - r,
        {
            let hole = holes[r];
            let ghost c1 = self.color@;
            let ghost t1 = self.tmp_block;
            let mut x: usize = 0;
            while x < 10
                invariant
                    r < 40,
                    hole < 10,
                    x <= 10,
                    self.color@.len() == BOARD_WIDTH * BOARD_HEIGHT,
                    forall|j: int| 0 <= j < BOARD_WIDTH * BOARD_HEIGHT ==> #[trigger] self.color@[j] <= EMPTY,
                    forall|j: int|
                        0 <= j < BOARD_WIDTH * BOARD_HEIGHT ==> #[trigger] self.color@[j] == (if r * 10 <= j < r * 10 + x {
                            if j == cell_index(hole as int, r as int) { EMPTY } else { GARBAGE_COLOR }
                        } else {
                            c1[j]
                        }),
                    *self == (Board { color: self.color, tmp_block: t1, ..*old(self) }),
                    t1.wf(),
                decreases 10 - x,
            {
                let v: u8 = if x == hole { EMPTY } else { GARBAGE_COLOR };
                self.color.set(r * 10 + x, v);
                x += 1;
            }
            assert(self.color@ =~= garbage_line(c1, r as int, hole as int));
            if !self.tmp_block.test(self) {
                self.tmp_block.pos.1 = self.tmp_block.pos.1 - 1;
            }
            r += 1;
        }
    }
}


/// The entries of `q` that pushing garbage until at most `keep` are left
/// forces in: the oldest ones.
pub open spec fn forced(q: Seq<u32>, keep: int) -> int {
    if q.len() > keep { q.len() - keep } else { 0 }
}

/// What `generate_garbage(keep)` does, whatever the random holes: the oldest
/// pending attacks beyond `keep` leave the queue and come into the field, in
/// order, each as a block of garbage lines with one hole per line; `rows`
/// counts the lines.  Nothing else changes but the generator's random state.
pub open spec fn garbage_pushed(pre: Board, post: Board, keep: int, rows: int) -> bool {
    let q = pre.gaman.garbages@;
    let n = forced(q, keep);
    &&& post.gaman.garbages@ == q.subrange(n, q.len() as int)
    &&& rows == garbage_rows(q.take(n))
    &&& exists|hs: Seq<Seq<usize>>|
        holes_fit(hs, q.take(n)) && (post.color@, post.tmp_block) == #[trigger] apply_garbage(pre.color@, pre.tmp_block, hs)
    &&& post.rg.bag@ == pre.rg.bag@
    &&& post == (Board {
        color: post.color,
        tmp_block: post.tmp_block,
        gaman: GarbageAttackManager { garbages: post.gaman.garbages, ..pre.gaman },
        rg: RandomGenerator { rng: post.rg.rng, ..pre.rg },
        ..pre
    })
}

proof fn lemma_garbage_rows_bound(q: Seq<u32>)
    ensures
        0 <= garbage_rows(q) <= 40 * q.len(),
    decreases q.len(),
{
    if q.len() > 0 {
        lemma_garbage_rows_bound(q.drop_last());
    }
}

impl Board {
    /// Pushes pending attacks into the field, oldest first, until at most
    /// `keep` are pending; each becomes as many garbage lines as its amount
    /// (at most 40), with a random hole that stays in the same column from
    /// one line to the next with probability 0.6.  Returns the number of
    /// lines.
    pub fn generate_garbage(&mut self, keep: usize) -> (rows: i32)
        requires
            old(self).wf_core(),
            old(self).gaman.garbages@.len() * 40 <= i32::MAX,
            old(self).tmp_block.pos.1 - 40 * old(self).gaman.garbages@.len() >= -POS_BOUND,
        ensures
            final(self).wf_core(),
            final(self).tmp_block.pos.1 >= old(self).tmp_block.pos.1 - 40 * old(self).gaman.garbages@.len(),
            garbage_pushed(*old(self), *final(self), keep as int, rows as int),
            0 <= rows <= 40 * old(self).gaman.garbages@.len(),
    {
        let ghost q0 = self.gaman.garbages@;
        let ghost hs: Seq<Seq<usize>> = Seq::empty();
        let mut ret: usize = 0;
        proof {
            assert(q0.take(0) =~= Seq::<u32>::empty());
        }
        loop
            invariant
                old(self).wf_core(),
                self.wf_core(),
                q0 == old(self).gaman.garbages@,
                q0.len() * 40 <= i32::MAX,
                old(self).tmp_block.pos.1 - 40 * q0.len() >= -POS_BOUND,
                self.tmp_block.pos.1 >= old(self).tmp_block.pos.1 - 40 * hs.len(),
                hs.len() <= forced(q0, keep as int),
                self.gaman.garbages@ == q0.subrange(hs.len() as int, q0.len() as int),
                holes_fit(hs, q0.take(hs.len() as int)),
                (self.color@, self.tmp_block) == apply_garbage(old(self).color@, old(self).tmp_block, hs),
                ret == garbage_rows(q0.take(hs.len() as int)),
                self.rg.bag@ == old(self).rg.bag@,
                *self == (Board {
                    color: self.color,
                    tmp_block: self.tmp_block,
                    gaman: GarbageAttackManager { garbages: self.gaman.garbages, ..old(self).gaman },
                    rg: RandomGenerator { rng: self.rg.rng, ..old(self).rg },
                    ..*old(self)
                }),
            ensures
                hs.len() == forced(q0, keep as int),
                self.wf_core(),
                self.tmp_block.pos.1 >= old(self).tmp_block.pos.1 - 40 * hs.len(),
                self.gaman.garbages@ == q0.subrange(hs.len() as int, q0.len() as int),
                holes_fit(hs, q0.take(hs.len() as int)),
                (self.color@, self.tmp_block) == apply_garbage(old(self).color@, old(self).tmp_block, hs),
                ret == garbage_rows(q0.take(hs.len() as int)),
                *self == (Board {
                    color: self.color,
                    tmp_block: self.tmp_block,
                    gaman: GarbageAttackManager { garbages: self.gaman.garbages, ..old(self).gaman },
                    rg: RandomGenerator { rng: self.rg.rng, ..old(self).rg },
                    ..*old(self)
                }),
            decreases self.gaman.garbages@.len(),
        {
            if self.gaman.garbages.len() <= keep {
                break;
            }
            let popped = self.gaman.garbages.pop_front();
            let amount = match popped {
                Some(x) => x,
                None => {
                    break;
                },
            };
            let mut count = amount as usize;
            let mut slot = random_below(&mut self.rg.rng, 10);
            if count > 40 {
                count = 40;
            }
            let mut holes: Vec<usize> = Vec::new();
            let mut y: usize = 0;
            let ghost before = *self;
            while y < count
                invariant
                    count <= 40,
                    y <= count,
                    slot < 10,
                    holes@.len() == y,
                    forall|i: int| 0 <= i < y ==> #[trigger] holes@[i] < BOARD_WIDTH,
                    before.wf_core(),
                    *self == (Board { rg: RandomGenerator { rng: self.rg.rng, ..before.rg }, ..before }),
                decreases count - y,
            {
                let draw = random_u32(&mut self.rg.rng);
                slot = next_hole(&mut self.rg.rng, slot, draw);
                holes.push(slot);
                y += 1;
            }
            proof {
                lemma_garbage_rows_bound(q0.take(hs.len() as int));
            }
            self.insert_garbage(&holes);
            ret = ret + count;
            proof {
                let n = hs.len() as int;
                assert(q0.take(n + 1).drop_last() =~= q0.take(n));
                assert(q0[n] == amount);
                let hs2 = hs.push(holes@);
                assert(hs2.drop_last() =~= hs);
                assert(q0.take(n + 1)[n] == amount);
                assert(holes_fit(hs2, q0.take(n + 1)));
                assert(self.gaman.garbages@ =~= q0.subrange(n + 1, q0.len() as int));
                hs = hs2;
            }
        }
        proof {
            lemma_garbage_rows_bound(q0.take(hs.len() as int));
            assert(holes_fit(hs, q0.take(forced(q0, keep as int))) && (self.color@, self.tmp_block) == apply_garbage(
                old(self).color@,
                old(self).tmp_block,
                hs,
            ));
        }
        ret as i32
    }
}


/// `h + r`, but no more than `i32::MAX`.
pub open spec fn sat_add(h: int, r: int) -> int {
    if h + r > i32::MAX { i32::MAX as int } else { h + r }
}

impl Board {
    /// The board with another height.
    pub open spec fn with_height(self, h: int) -> Board {
        Board { height: h as i32, ..self }
    }
}

/// `flush_garbage(keep)`: pending attacks beyond `keep` forced into the
/// field and counted into the height, the landing place recomputed; the
/// player dies when that place is at or above the visible field or the
/// height is exactly 40.
pub open spec fn flushed(pre: Board, post: Board, keep: int, dies: bool) -> bool {
    &&& exists|mid: Board, rows: int|
        #[trigger] garbage_pushed(pre, mid, keep, rows) && shadow_updated(mid.with_height(sat_add(pre.height as int, rows)), post)
    &&& dies == (post.shadow_block.pos.1 >= VISIBLE_HEIGHT || post.height == BOARD_HEIGHT)
}

/// The twist of a drop.
pub open spec fn drop_twist(pre: Board) -> u32 {
    twist_kind(pre.color@, pre.tmp_block)
}

/// The field with the falling piece written into it.
pub open spec fn drop_color(pre: Board) -> Seq<u8> {
    place_cells(pre.color@, pre.tmp_block, 4)
}

/// The rows a drop clears.
pub open spec fn drop_lines(pre: Board) -> Set<usize> {
    full_rows(drop_color(pre), rows_of(pre.tmp_block, 4))
}

/// The height once the falling piece is written.
pub open spec fn drop_height(pre: Board) -> int {
    raised_height(pre.height as int, pre.tmp_block, 4)
}

/// The first part of a drop: the piece written, full rows cleared, the
/// attack computed (cancelling pending garbage) with the counters, and the
/// sound chosen; the height is that with the piece written.
pub open spec fn landed(pre: Board, mid: Board, atk: u32) -> bool {
    let n = drop_lines(pre).len();
    let h1 = drop_height(pre);
    &&& mid.color@ == cleared(drop_color(pre), drop_lines(pre))
    &&& mid.height == h1
    &&& (mid.gaman.garbages@, atk as int) == cancel(
        pre.gaman.garbages@,
        raw_attack(drop_twist(pre) as int, n as int, pre.gaman.cm as int, pre.gaman.tcm as int, h1 == 0),
    )
    &&& mid.gaman.cm == (if n == 0 { 0 } else { bump(pre.gaman.cm) })
    &&& mid.gaman.tcm == (if n == 0 {
        pre.gaman.tcm
    } else if difficult(drop_twist(pre) as int, n as int) {
        bump(pre.gaman.tcm)
    } else {
        0
    })
    &&& mid.last_se == attack_sound(atk, n as u32, h1)
    &&& mid == (Board { color: mid.color, height: mid.height, gaman: mid.gaman, last_se: mid.last_se, ..pre })
}

/// The end of a drop: the next piece dealt and its landing place computed;
/// the player dies when that place is at or above the visible field, else
/// the attack is sent.
pub open spec fn next_piece(pre: Board, post: Board, r: Option<u32>, atk: u32) -> bool {
    exists|m: Board|
        #[trigger] spawned_next(pre, m) && shadow_updated(m, post) && r == (if post.shadow_block.pos.1
            >= VISIBLE_HEIGHT {
            None
        } else {
            Some(atk)
        })
}

/// A hard drop of the falling piece where it stands.  When it cleared
/// rows the height falls by their number; otherwise all pending garbage
/// comes in, and a height of exactly 40 kills.  Then the next piece comes.
pub open spec fn hard_dropped(pre: Board, post: Board, r: Option<u32>) -> bool {
    exists|mid: Board, atk: u32|
        #[trigger] landed(pre, mid, atk) && (if drop_lines(pre).len() > 0 {
            next_piece(mid.with_height(mid.height - drop_lines(pre).len()), post, r, atk)
        } else {
            exists|m2: Board, rows: int|
                #[trigger] garbage_pushed(mid, m2, 0, rows) && (if sat_add(mid.height as int, rows) == BOARD_HEIGHT {
                    post == m2.with_height(sat_add(mid.height as int, rows)) && r == None::<u32>
                } else {
                    next_piece(m2.with_height(sat_add(mid.height as int, rows)), post, r, atk)
                })
        })
}

/// The reply to a key that dropped the piece.
pub open spec fn drop_reply(o: Option<u32>) -> BoardReply {
    match o {
        Some(a) => BoardReply::Done(a),
        None => BoardReply::Die,
    }
}

/// The message recorded in the replay, nothing else changed.
pub open spec fn recorded(pre: Board, post: Board, msg: BoardMsg) -> bool {
    &&& post.replay.operations@ == pre.replay.operations@.push(msg)
    &&& post.replay.block_seq@ == pre.replay.block_seq@
    &&& post == (Board { replay: post.replay, ..pre })
}

/// An attack of `amount` lines queued; when more than `MAX_GARBAGE_LEN`
/// are then pending, the oldest are forced in and the player either dies
/// or is told of the overflow.
pub open spec fn attacked(pre: Board, post: Board, amount: u32, reply: BoardReply) -> bool {
    exists|m1: Board|
        #[trigger] m1.gaman.garbages@ == pre.gaman.garbages@.push(amount) && m1 == (Board {
            gaman: GarbageAttackManager { garbages: m1.gaman.garbages, ..pre.gaman },
            ..pre
        }) && (if m1.gaman.garbages@.len() > MAX_GARBAGE_LEN {
            exists|dies: bool|
                #[trigger] flushed(m1, post, MAX_GARBAGE_LEN as int, dies) && reply == (if dies {
                    BoardReply::Die
                } else {
                    BoardReply::GarbageOverflow
                })
        } else {
            post == m1 && reply == BoardReply::Done(0)
        })
}

/// What a key does to a board and what the board answers.
pub open spec fn key_applied(pre: Board, post: Board, key: KeyType, reply: BoardReply) -> bool {
    match key {
        KeyType::Nothing => post == pre && reply == BoardReply::Done(0),
        KeyType::Hold => exists|m: Board| #[trigger] held(pre, m) && post == m.with_se(SoundEffect::Hold) && reply
            == BoardReply::Done(0),
        KeyType::Left => shifted_once(pre, post, 1, pre.tmp_block.moved(-1, 0).fits(pre.color@)) && reply
            == BoardReply::Done(0),
        KeyType::LLeft => slid(pre, post, 1) && reply == BoardReply::Done(0),
        KeyType::Right => shifted_once(pre, post, -1, pre.tmp_block.moved(1, 0).fits(pre.color@)) && reply
            == BoardReply::Done(0),
        KeyType::RRight => slid(pre, post, -1) && reply == BoardReply::Done(0),
        KeyType::HardDrop => exists|o: Option<u32>| #[trigger] hard_dropped(soft_dropped(pre), post, o) && reply
            == drop_reply(o),
        KeyType::SoftDrop => if pre.shadow_block.pos.1 == pre.tmp_block.pos.1 {
            exists|o: Option<u32>| #[trigger] hard_dropped(pre, post, o) && reply == drop_reply(o)
        } else {
            post == soft_dropped(pre).with_se(SoundEffect::SoftDrop) && reply == BoardReply::Done(0)
        },
        KeyType::RotateReverse => rotated(pre, post, -1) && reply == BoardReply::Done(0),
        KeyType::Rotate => rotated(pre, post, 1) && reply == BoardReply::Done(0),
        KeyType::RotateFlip => rotated(pre, post, 2) && reply == BoardReply::Done(0),
    }
}

/// What a message does to a board and what the board answers.
pub open spec fn msg_applied(pre: Board, post: Board, msg: BoardMsg, reply: BoardReply) -> bool {
    match msg {
        BoardMsg::KeyEvent(key) => key_applied(pre, post, key, reply),
        BoardMsg::Attacked(amount) => attacked(pre, post, amount, reply),
    }
}

/// A sequence without repeats whose elements are all below `h` is no longer
/// than `h`.
proof fn lemma_distinct_below(s: Seq<usize>, h: int)
    requires
        s.no_duplicates(),
        forall|i: int| 0 <= i < s.len() ==> #[trigger] s[i] < h,
    ensures
        s.len() > 0 ==> s.len() <= h,
    decreases h,
{
    if s.len() > 0 {
        assert(s[0] < h);
        if s.contains((h - 1) as usize) {
            let j = choose|j: int| 0 <= j < s.len() && s[j] == (h - 1) as usize;
            let t = s.remove(j);
            s.remove_ensures(j);
            assert forall|i: int| 0 <= i < t.len() implies #[trigger] t[i] < h - 1 by {
                if i < j {
                    assert(s[i] != s[j]);
                } else {
                    assert(s[i + 1] != s[j]);
                }
            }
            assert forall|a: int, b: int| 0 <= a < t.len() && 0 <= b < t.len() && a != b implies t[a] != t[b] by {
                let sa = if a < j { a } else { a + 1 };
                let sb = if b < j { b } else { b + 1 };
                assert(t[a] == s[sa] && t[b] == s[sb]);
            }
            assert(t.no_duplicates());
            lemma_distinct_below(t, h - 1);
        } else {
            assert forall|i: int| 0 <= i < s.len() implies #[trigger] s[i] < h - 1 by {
                assert(s[i] != (h - 1) as usize);
            }
            lemma_distinct_below(s, h - 1);
        }
    }
}

impl Board {
    /// Forces pending attacks beyond `max` into the field and counts their
    /// lines into the height (at most `i32::MAX`); true when the player dies.
    fn flush_garbage(&mut self, max: usize) -> (dies: bool)
        requires
            old(self).wf_core(),
            old(self).gaman.garbages@.len() * 40 <= i32::MAX,
            old(self).tmp_block.pos.1 - 40 * old(self).gaman.garbages@.len() >= -POS_BOUND,
        ensures
            final(self).wf_core(),
            flushed(*old(self), *final(self), max as int, dies),
            final(self).gaman.garbages@.len() <= max,
            final(self).shadow_block.pos.1 >= VISIBLE_HEIGHT ==> dies,
            final(self).height == BOARD_HEIGHT ==> dies,
            dies ==> final(self).shadow_block.pos.1 >= VISIBLE_HEIGHT || final(self).height == BOARD_HEIGHT,
    {
        let mut flag = false;
        let rows = self.generate_garbage(max);
        let ghost mid = *self;
        self.height = if self.height > i32::MAX - rows { i32::MAX } else { self.height + rows };
        assert(*self == mid.with_height(sat_add(old(self).height as int, rows as int)));
        if self.calc_shadow() {
            flag = true;
        }
        if self.height == BOARD_HEIGHT {
            flag = true;
        }
        assert(garbage_pushed(*old(self), mid, max as int, rows as int));
        flag
    }

    /// Drops the falling piece where it stands: writes it, clears full
    /// rows, sends the attack, takes in pending garbage when nothing was
    /// cleared, and deals the next piece.  `None` when the player dies.
    fn hard_drop(&mut self) -> (r: Option<u32>)
        requires
            old(self).wf(),
            old(self).room_to_sink(),
        ensures
            final(self).wf(),
            hard_dropped(*old(self), *final(self), r),
    {
        let twist = self.test_twist();
        let lines = self.hard_drop_set_color();
        proof {
            lemma_rows_of(old(self).tmp_block, old(self).height as int, 4);
        }
        let elim = self.checkline(lines);
        proof {
            assert forall|i: int| 0 <= i < elim@.len() implies #[trigger] elim@[i] < self.height && elim@[i]
                < BOARD_HEIGHT by {
                assert(elim@.to_set().contains(elim@[i]));
            }
            lemma_distinct_below(elim@, self.height as int);
            lemma_distinct_below(elim@, BOARD_HEIGHT as int);
            elim@.unique_seq_to_set();
        }
        let line_count = elim.len() as u32;
        self.proc_elim(elim);
        let code = self.tmp_block.code;
        let pc = self.height == 0;
        let atk = self.gaman.calc_attack(twist, line_count, code, pc);
        proof {
            lemma_cancel_conserves(
                old(self).gaman.garbages@,
                raw_attack(twist as int, line_count as int, old(self).gaman.cm as int, old(self).gaman.tcm as int, pc),
            );
        }
        self.last_se = self.attack_se(atk, line_count);
        let ghost mid = *self;
        assert(landed(*old(self), mid, atk));
        if line_count > 0 {
            self.height = self.height - line_count as i32;
            assert(*self == mid.with_height(mid.height - drop_lines(*old(self)).len()));
        } else {
            let rows = self.generate_garbage(0);
            let ghost m2 = *self;
            self.height = if self.height > i32::MAX - rows { i32::MAX } else { self.height + rows };
            assert(*self == m2.with_height(sat_add(mid.height as int, rows as int)));
            assert(garbage_pushed(mid, m2, 0, rows as int));
            if self.height == BOARD_HEIGHT {
                return None;
            }
        }
        let ghost before_spawn = *self;
        self.spawn_block();
        let ghost m = *self;
        assert(spawned_next(before_spawn, m));
        if self.calc_shadow() {
            return None;
        }
        Some(atk)
    }

    /// Soft drop: moves the falling piece down to its landing place, or, when
    /// it is already there, drops it hard.
    fn press_down(&mut self) -> (r: Option<u32>)
        requires
            old(self).wf(),
            old(self).room_to_sink(),
        ensures
            final(self).wf(),
            old(self).shadow_block.pos.1 == old(self).tmp_block.pos.1 ==> hard_dropped(*old(self), *final(self), r),
            old(self).shadow_block.pos.1 != old(self).tmp_block.pos.1 ==> *final(self) == soft_dropped(
                *old(self),
            ).with_se(SoundEffect::SoftDrop) && r == Some(0u32),
    {
        if !self.soft_drop() {
            return self.hard_drop();
        } else {
            self.last_se = SoundEffect::SoftDrop;
        }
        Some(0)
    }

    /// Hard drop: moves the falling piece down to its landing place and drops
    /// it there.
    fn press_up(&mut self) -> (r: Option<u32>)
        requires
            old(self).wf(),
            old(self).room_to_sink(),
        ensures
            final(self).wf(),
            hard_dropped(soft_dropped(*old(self)), *final(self), r),
    {
        self.soft_drop();
        self.hard_drop()
    }
}


impl Board {
    /// A new board for player `id`: an empty field, an empty hold slot,
    /// nothing pending, the first piece dealt from a freshly seeded
    /// generator, and its landing place computed.
    pub fn new(id: i32) -> (board: Board)
        ensures
            board.wf(),
            board.id == id,
            board.color@ == Seq::new(400, |i: int| EMPTY),
            board.hold == EMPTY,
            board.height == 0,
            board.last_se == SoundEffect::Silence,
            board.gaman.garbages@ == Seq::<u32>::empty(),
            board.gaman.cm == 0,
            board.gaman.tcm == 0,
            board.replay.operations@ == Seq::<BoardMsg>::empty(),
            board.replay.block_seq@ == seq![board.tmp_block.code],
            board.tmp_block == Block::spawned(board.tmp_block.code),
            board.rg.bag@.len() == 13,
            is_bag(seq![board.tmp_block.code] + board.rg.bag@.subrange(0, 6)),
            exists|k: int|
                lands_at(board.color@, board.tmp_block, k) && board.shadow_block == #[trigger] board.tmp_block.moved(0, -k),
    {
        let replay = Replay::new();
        let color: Vec<u8> = vec![EMPTY; 400];
        let mut board = Board {
            id,
            tmp_block: Block::new(0),
            shadow_block: Block::new(0),
            rg: RandomGenerator::new(),
            color,
            hold: EMPTY,
            gaman: GarbageAttackManager::new(),
            last_se: SoundEffect::Silence,
            height: 0,
            replay,
        };
        assert(board.color@ =~= Seq::new(400, |i: int| EMPTY));
        let ghost bag0 = board.rg.bag@;
        board.spawn_block();
        assert(seq![board.tmp_block.code] + board.rg.bag@.subrange(0, 6) =~= bag0.subrange(0, 7));
        assert(board.replay.block_seq@ =~= seq![board.tmp_block.code]);
        board.calc_shadow();
        board
    }

    /// Handles a message: records it, then applies the key or queues the
    /// attack, and answers.
    pub fn handle_msg(&mut self, board_msg: BoardMsg) -> (reply: BoardReply)
        requires
            old(self).wf(),
            old(self).room_to_sink(),
        ensures
            final(self).wf(),
            exists|m0: Board| #[trigger] recorded(*old(self), m0, board_msg) && msg_applied(m0, *final(self), board_msg, reply),
    {
        self.replay.push_operation(board_msg);
        let ghost m0 = *self;
        assert(recorded(*old(self), m0, board_msg));
        let mut atk: u32 = 0;
        match board_msg {
            BoardMsg::KeyEvent(key_type) => match key_type {
                KeyType::Nothing => {},
                KeyType::Hold => {
                    self.hold();
                    let ghost m = *self;
                    self.last_se = SoundEffect::Hold;
                    assert(held(m0, m));
                },
                KeyType::Left => {
                    self.move1(1);
                },
                KeyType::LLeft => {
                    self.move2(1);
                },
                KeyType::Right => {
                    self.move1(-1);
                },
                KeyType::RRight => {
                    self.move2(-1);
                },
                KeyType::HardDrop => {
                    let ret = self.press_up();
                    assert(hard_dropped(soft_dropped(m0), *self, ret));
                    atk = match ret {
                        None => {
                            return BoardReply::Die;
                        },
                        Some(atk) => atk,
                    };
                },
                KeyType::SoftDrop => {
                    let ret = self.press_down();
                    proof {
                        if m0.shadow_block.pos.1 == m0.tmp_block.pos.1 {
                            assert(hard_dropped(m0, *self, ret));
                        }
                    }
                    atk = match ret {
                        None => {
                            return BoardReply::Die;
                        },
                        Some(atk) => atk,
                    };
                },
                KeyType::RotateReverse => {
                    self.rotate(-1);
                },
                KeyType::Rotate => {
                    self.rotate(1);
                },
                KeyType::RotateFlip => {
                    self.rotate(2);
                },
            },
            BoardMsg::Attacked(amount) => {
                self.gaman.push_garbage(amount);
                let ghost m1 = *self;
                assert(m1.gaman.garbages@ == m0.gaman.garbages@.push(amount));
                if self.gaman.garbages.len() > MAX_GARBAGE_LEN {
                    let dies = self.flush_garbage(MAX_GARBAGE_LEN);
                    assert(flushed(m1, *self, MAX_GARBAGE_LEN as int, dies));
                    if dies {
                        return BoardReply::Die;
                    } else {
                        return BoardReply::GarbageOverflow;
                    }
                }
            },
        }
        BoardReply::Done(atk)
    }

    /// A snapshot for drawing: the visible 20 rows (the rest of the 400 cells
    /// empty), the falling piece and its landing place, the hold slot, the
    /// next six pieces, the counters and the pending garbage.
    #[verifier::rlimit(40)]
    #[verifier::spinoff_prover]
    pub fn generate_display(&self) -> (d: Display)
        requires
            self.wf(),
        ensures
            d.id == self.id,
            d.color@.len() == 400,
            forall|i: int| 0 <= i < 200 ==> d.color@[i] == self.color@[i],
            forall|i: int| 200 <= i < 400 ==> d.color@[i] == EMPTY,
            d.shadow_pos@ == self.shadow_block.compressed(),
            d.shadow_code == self.shadow_block.code,
            d.tmp_pos@ == self.tmp_block.compressed(),
            d.tmp_code == self.tmp_block.code,
            d.hold == self.hold,
            d.bag_preview@ == self.rg.bag@.take(6),
            d.cm == self.gaman.cm,
            d.tcm == self.gaman.tcm,
            d.garbages@ == self.gaman.garbages@,
    {
        let mut display = Display::new(self.id);
        let mut i: usize = 0;
        while i < 200
            invariant
                self.wf(),
                i <= 200,
                display.color@.len() == 400,
                forall|j: int| 0 <= j < i ==> display.color@[j] == self.color@[j],
                forall|j: int| i <= j < 400 ==> display.color@[j] == EMPTY,
                display.id == self.id,
            decreases 200 - i,
        {
            display.color.set(i, self.color[i]);
            i += 1;
        }
        let (shadow_pos, shadow_code) = self.shadow_block.compress();
        display.shadow_pos = shadow_pos;
        display.shadow_code = shadow_code;
        let (tmp_pos, tmp_code) = self.tmp_block.compress();
        display.tmp_pos = tmp_pos;
        display.tmp_code = tmp_code;
        display.garbages = self.gaman.garbages.clone();
        display.hold = self.hold;
        display.cm = self.gaman.cm;
        display.tcm = self.gaman.tcm;
        let bag = &self.rg.bag;
        display.bag_preview = [bag[0], bag[1], bag[2], bag[3], bag[4], bag[5]];
        assert(display.bag_preview@ =~= self.rg.bag@.take(6));
        assert(display.garbages@ =~= self.gaman.garbages@);
        display
    }
}

} // verus!
