//! Properties of the board that span several operations.

use crate::block::{cell_index, representable, vacant, Block};
use crate::board::{
    attacked, corner, drop_color, drop_lines, flushed, full_rows, immobile, twist_kind,
    add_garbage, cleared, first_fit, kicked, no_kick_fits, fill_garbage, garbage_line, held, key_applied, kept_rows, rotated, shadow_updated,
    shifted_once, shifted_up, slid, Board,
};
use crate::client::{decision, phase_after, ClientPhase, ServerEvent, Step};
use crate::protocol::{BoardReply, KeyType};
use crate::rules::{valid_turn, BOARD_HEIGHT, BOARD_WIDTH, CODE_I, CODE_O, EMPTY, GARBAGE_COLOR, SPAWN_X, SPAWN_Y, VISIBLE_HEIGHT};
use vstd::prelude::*;

verus! {

/// A step of the falling piece that was taken is undone by a step back.
pub proof fn law_step_back_undoes_step(pre: Board, mid: Board, post: Board, dx: int, back: bool)
    requires
        pre.wf_core(),
        representable(pre.tmp_block.pos.0 - dx),
        pre.tmp_block.fits(pre.color@),
        shifted_once(pre, mid, dx, true),
        shifted_once(mid, post, -dx, back),
    ensures
        back,
        post == pre,
{
    assert(mid.tmp_block.moved(dx, 0) == pre.tmp_block);
}

/// Moving or turning the piece never changes the field, and never puts the
/// piece into a taken cell or off the board: it either stays where it was
/// or fits where it goes.
pub proof fn law_moves_land_on_free_cells(pre: Board, post: Board, key: KeyType, reply: BoardReply)
    requires
        pre.wf_core(),
        key_applied(pre, post, key, reply),
        key == KeyType::Left || key == KeyType::LLeft || key == KeyType::Right || key == KeyType::RRight || key
            == KeyType::Rotate || key == KeyType::RotateReverse || key == KeyType::RotateFlip,
    ensures
        post.color@ == pre.color@,
        post.tmp_block == pre.tmp_block || post.tmp_block.fits(post.color@),
        reply == BoardReply::Done(0),
{
    if key == KeyType::LLeft || key == KeyType::RRight {
        let dx: int = if key == KeyType::LLeft { 1 } else { -1 };
        assert(slid(pre, post, dx));
        let k = choose|k: int|
            crate::board::slides_to(pre.color@, pre.tmp_block, dx, k) && post == pre.with_tmp(
                #[trigger] pre.tmp_block.moved(-dx * k, 0),
            );
        if k > 0 {
            assert(pre.tmp_block.moved(-dx * k, 0).fits(pre.color@));
        } else {
            assert(pre.tmp_block.moved(-dx * 0, 0) == pre.tmp_block);
        }
    } else if key == KeyType::Rotate || key == KeyType::RotateReverse || key == KeyType::RotateFlip {
        let dr: int = if key == KeyType::Rotate { 1 } else if key == KeyType::RotateReverse { -1 } else { 2 };
        assert(rotated(pre, post, dr));
    }
}

/// A turn that fits in place is undone by the opposite turn (a half turn by
/// another half turn): the piece is back where it was, as it was.
pub proof fn law_turn_back_undoes_turn(pre: Board, mid: Board, post: Board, dr: int, back: int)
    requires
        pre.wf_core(),
        pre.tmp_block.fits(pre.color@),
        pre.tmp_block.code != CODE_O,
        valid_turn(dr),
        back == (if dr == 2 { 2 } else { -dr }),
        kicked(pre.tmp_block, dr, 0).fits(pre.color@),
        rotated(pre, mid, dr),
        rotated(mid, post, back),
    ensures
        post.tmp_block == pre.tmp_block,
        post.color@ == pre.color@,
{
    assert(!no_kick_fits(pre.color@, pre.tmp_block, dr));
    let k = choose|k: int|
        first_fit(pre.color@, pre.tmp_block, dr, k) && mid == pre.with_tmp(#[trigger] kicked(pre.tmp_block, dr, k)).with_se(
            crate::protocol::SoundEffect::Rotate(
                if crate::board::twist_kind(pre.color@, kicked(pre.tmp_block, dr, k)) > 0 { 2u8 } else { 1u8 },
            ),
        );
    assert(k == 0);
    let m = mid.tmp_block;
    assert(m == kicked(pre.tmp_block, dr, 0));
    assert(kicked(m, back, 0) == pre.tmp_block);
    assert(!no_kick_fits(mid.color@, m, back));
    let k2 = choose|k: int|
        first_fit(mid.color@, m, back, k) && post == mid.with_tmp(#[trigger] kicked(m, back, k)).with_se(
            crate::protocol::SoundEffect::Rotate(
                if crate::board::twist_kind(mid.color@, kicked(m, back, k)) > 0 { 2u8 } else { 1u8 },
            ),
        );
    assert(k2 == 0);
}

/// Holding twice, with a piece already held, gives back the held piece and
/// starts the falling kind over at the spawn position; the field, the piece
/// generator and the record are untouched.
pub proof fn law_hold_twice_swaps_back(pre: Board, mid: Board, post: Board)
    requires
        pre.wf_core(),
        pre.hold != EMPTY,
        held(pre, mid),
        held(mid, post),
    ensures
        post.hold == pre.hold,
        post.tmp_block == Block::spawned(pre.tmp_block.code),
        post.color@ == pre.color@,
        post.rg == pre.rg,
        post.replay == pre.replay,
{
}

/// The landing place is the falling piece straight below it, and it is a
/// free place when the falling piece stands in one.
pub proof fn law_shadow_below_piece(pre: Board, post: Board)
    requires
        shadow_updated(pre, post),
        pre.wf_core(),
    ensures
        post.shadow_block.code == pre.tmp_block.code,
        post.shadow_block.rotation == pre.tmp_block.rotation,
        post.shadow_block.pos.0 == pre.tmp_block.pos.0,
        post.shadow_block.pos.1 <= pre.tmp_block.pos.1,
        pre.tmp_block.fits(pre.color@) ==> post.shadow_block.fits(post.color@),
        post.tmp_block == pre.tmp_block,
        post.color@ == pre.color@,
{
    let k = choose|k: int|
        crate::board::lands_at(pre.color@, pre.tmp_block, k) && post == pre.with_shadow(
            #[trigger] pre.tmp_block.moved(0, -k),
        );
    if k > 0 {
        let p = pre.tmp_block.pos.1 as int;
        if k >= p + 4 {
            let j = if p + 4 >= 1 { p + 4 } else { 1 };
            assert(pre.tmp_block.moved(0, -j).fits(pre.color@));
            crate::block::lemma_fits_bounds(pre.tmp_block.moved(0, -j), pre.color@);
        }
        assert(pre.tmp_block.moved(0, -k).fits(pre.color@));
    } else {
        assert(pre.tmp_block.moved(0, 0) == pre.tmp_block);
    }
}

/// Clearing no rows leaves the field as it was.
pub proof fn law_clearing_nothing_changes_nothing(color: Seq<u8>)
    requires
        color.len() == BOARD_WIDTH * BOARD_HEIGHT,
    ensures
        cleared(color, Set::empty()) == color,
{
    let all = Seq::new(BOARD_HEIGHT as nat, |i: int| i);
    let e = Set::<usize>::empty();
    assert(kept_rows(e) == all.filter(|i: int| !e.contains(i as usize)));
    assert(all.filter(|i: int| !e.contains(i as usize)) =~= all) by {
        lemma_filter_all(all, |i: int| !e.contains(i as usize));
    }
    assert forall|idx: int| 0 <= idx < BOARD_WIDTH * BOARD_HEIGHT implies #[trigger] cleared(color, e)[idx]
        == color[idx] by {
        assert(idx == cell_index(idx % 10, idx / 10));
    }
    assert(cleared(color, e) =~= color);
}

proof fn lemma_filter_all(s: Seq<int>, p: spec_fn(int) -> bool)
    requires
        forall|i: int| 0 <= i < s.len() ==> p(#[trigger] s[i]),
    ensures
        s.filter(p) == s,
    decreases s.len(),
{
    reveal_with_fuel(Seq::filter, 1);
    if s.len() > 0 {
        lemma_filter_all(s.drop_last(), p);
        assert(s.drop_last().push(s.last()) =~= s);
    }
}

/// After an attack comes in, each new bottom row is a garbage line with one
/// hole, where `holes` says; everything that was in the field sits that
/// many rows higher.
pub proof fn law_garbage_lines_have_one_hole(color: Seq<u8>, b: Block, holes: Seq<usize>, x: int, y: int)
    requires
        color.len() == BOARD_WIDTH * BOARD_HEIGHT,
        holes.len() <= BOARD_HEIGHT,
        forall|i: int| 0 <= i < holes.len() ==> #[trigger] holes[i] < BOARD_WIDTH,
        0 <= x < BOARD_WIDTH,
        0 <= y < BOARD_HEIGHT,
    ensures
        y < holes.len() ==> add_garbage(color, b, holes).0[cell_index(x, y)] == (if x == holes[y] {
            EMPTY
        } else {
            GARBAGE_COLOR
        }),
        y >= holes.len() ==> add_garbage(color, b, holes).0[cell_index(x, y)] == color[cell_index(x, y - holes.len())],
{
    let base = shifted_up(color, holes.len() as int);
    lemma_fill_rows(base, b, holes, holes.len(), x, y);
}

proof fn lemma_fill_rows(base: Seq<u8>, b: Block, holes: Seq<usize>, n: nat, x: int, y: int)
    requires
        base.len() == BOARD_WIDTH * BOARD_HEIGHT,
        n <= holes.len() <= BOARD_HEIGHT,
        forall|i: int| 0 <= i < holes.len() ==> #[trigger] holes[i] < BOARD_WIDTH,
        0 <= x < BOARD_WIDTH,
        0 <= y < BOARD_HEIGHT,
    ensures
        fill_garbage(base, b, holes, n).0.len() == base.len(),
        y < n ==> fill_garbage(base, b, holes, n).0[cell_index(x, y)] == (if x == holes[y] {
            EMPTY
        } else {
            GARBAGE_COLOR
        }),
        y >= n ==> fill_garbage(base, b, holes, n).0[cell_index(x, y)] == base[cell_index(x, y)],
    decreases n,
{
    if n > 0 {
        lemma_fill_rows(base, b, holes, (n - 1) as nat, x, y);
        let prev = fill_garbage(base, b, holes, (n - 1) as nat);
        let c = garbage_line(prev.0, n - 1, holes[n - 1] as int);
        assert(fill_garbage(base, b, holes, n).0 == c);
    }
}


/// The phase of a client loop after the messages `evs`, from phase `p`
/// (deciding between messages leaves the phase).
pub open spec fn phase_after_all(p: ClientPhase, evs: Seq<ServerEvent>) -> ClientPhase
    decreases evs.len(),
{
    if evs.len() == 0 {
        p
    } else {
        phase_after(phase_after_all(p, evs.drop_last()), evs.last())
    }
}

/// Among the messages `evs`, the most recent start, request or game over is
/// a start or a request.
pub open spec fn last_phase_msg_starts(evs: Seq<ServerEvent>) -> bool
    decreases evs.len(),
{
    if evs.len() == 0 {
        false
    } else {
        match evs.last() {
            ServerEvent::Start => true,
            ServerEvent::Request(_) => true,
            ServerEvent::GameOver => false,
            _ => last_phase_msg_starts(evs.drop_last()),
        }
    }
}

/// A step that sends keys.
pub open spec fn sends(step: Step) -> bool {
    step matches Step::SendOne { .. } || step == Step::SendAll
}

/// A new client loop is playing exactly when the most recent start,
/// request or game over it received was a start or a request.
pub proof fn law_phase_follows_messages(evs: Seq<ServerEvent>)
    ensures
        (phase_after_all(ClientPhase::Waiting, evs) == ClientPhase::Playing) == last_phase_msg_starts(evs),
    decreases evs.len(),
{
    if evs.len() > 0 {
        law_phase_follows_messages(evs.drop_last());
    }
}

/// A client loop sends keys only while the most recent start, request or
/// game over it received is a start or a request: never before the first
/// start or request, and never after a game over until the next one.
pub proof fn law_keys_only_while_playing(
    evs: Seq<ServerEvent>,
    moveflag: bool,
    strategy: bool,
    has_display: bool,
    queue_empty: bool,
)
    requires
        sends(decision(phase_after_all(ClientPhase::Waiting, evs), moveflag, strategy, has_display, queue_empty)),
    ensures
        last_phase_msg_starts(evs),
{
    law_phase_follows_messages(evs);
}


/// Among the rows `lines`, those kept as full are exactly the rows of
/// `lines` whose ten cells are all taken: a row with an empty cell, in any
/// column, is never counted full.
pub proof fn law_full_rows_have_every_cell_taken(color: Seq<u8>, lines: Set<usize>, y: usize)
    ensures
        full_rows(color, lines).contains(y) <==> lines.contains(y) && forall|x: int|
            0 <= x < BOARD_WIDTH ==> color[#[trigger] cell_index(x, y as int)] != EMPTY,
{
}

/// A drop clears a row only when, with the piece written, all ten of its
/// cells are taken; a row with an empty cell in any column stays.
pub proof fn law_drop_clears_only_full_rows(pre: Board, y: usize)
    ensures
        drop_lines(pre).contains(y) ==> forall|x: int|
            0 <= x < BOARD_WIDTH ==> drop_color(pre)[#[trigger] cell_index(x, y as int)] != EMPTY,
        (exists|x: int| 0 <= x < BOARD_WIDTH && drop_color(pre)[#[trigger] cell_index(x, y as int)] == EMPTY) ==> !drop_lines(
            pre,
        ).contains(y),
{
    law_full_rows_have_every_cell_taken(drop_color(pre), crate::board::rows_of(pre.tmp_block, 4), y);
}

/// A piece other than O and I that cannot move left, right or up makes a
/// regular twist (2) exactly when neither corner it faces is a free cell of
/// the board, and a mini twist (1) exactly when one of them is.
pub proof fn law_twist_regular_needs_both_corners(color: Seq<u8>, b: Block)
    requires
        b.code != CODE_O,
        b.code != CODE_I,
        immobile(color, b),
    ensures
        twist_kind(color, b) == 2 <==> !vacant(color, corner(b, 0)) && !vacant(color, corner(b, 1)),
        twist_kind(color, b) == 1 <==> vacant(color, corner(b, 0)) || vacant(color, corner(b, 1)),
{
}

/// An O piece never twists, and a piece that can still move left, right or
/// up never twists.
pub proof fn law_no_twist_when_free_or_o(color: Seq<u8>, b: Block)
    requires
        b.code == CODE_O || !immobile(color, b),
    ensures
        twist_kind(color, b) == 0,
{
}

/// Once garbage has been forced in, the player dies when the recomputed
/// landing place of the falling piece is at or above the visible field,
/// and when the height is exactly 40; otherwise the player lives.
pub proof fn law_flush_dies_when_shadow_visible(pre: Board, post: Board, keep: int, dies: bool)
    requires
        flushed(pre, post, keep, dies),
    ensures
        post.shadow_block.pos.1 >= VISIBLE_HEIGHT ==> dies,
        post.height == BOARD_HEIGHT ==> dies,
        post.shadow_block.pos.1 < VISIBLE_HEIGHT && post.height != BOARD_HEIGHT ==> !dies,
{
}

/// An attack that overflows the queue is answered `Die` whenever the
/// landing place afterwards is at or above the visible field.
pub proof fn law_overflowing_attack_kills_when_shadow_visible(
    pre: Board,
    post: Board,
    amount: u32,
    reply: BoardReply,
)
    requires
        attacked(pre, post, amount, reply),
        pre.gaman.garbages@.len() >= crate::board::MAX_GARBAGE_LEN,
        post.shadow_block.pos.1 >= VISIBLE_HEIGHT,
    ensures
        reply == BoardReply::Die,
{
    let m1 = choose|m1: Board|
        #[trigger] m1.gaman.garbages@ == pre.gaman.garbages@.push(amount) && m1 == (Board {
            gaman: crate::garbage_attack_manager::GarbageAttackManager { garbages: m1.gaman.garbages, ..pre.gaman },
            ..pre
        }) && (if m1.gaman.garbages@.len() > crate::board::MAX_GARBAGE_LEN {
            exists|dies: bool|
                #[trigger] flushed(m1, post, crate::board::MAX_GARBAGE_LEN as int, dies) && reply == (if dies {
                    BoardReply::Die
                } else {
                    BoardReply::GarbageOverflow
                })
        } else {
            post == m1 && reply == BoardReply::Done(0)
        });
    assert(m1.gaman.garbages@.len() > crate::board::MAX_GARBAGE_LEN);
}

/// After a hold the falling piece is a fresh one at the spawn position in
/// spawn orientation: the next piece dealt when the slot was empty, else
/// the kind that was held; the slot then holds the old falling kind.
pub proof fn law_hold_gives_fresh_piece(pre: Board, post: Board)
    requires
        held(pre, post),
    ensures
        post.tmp_block.pos == (SPAWN_X, SPAWN_Y),
        post.tmp_block.rotation == 0,
        post.hold == pre.tmp_block.code,
        pre.hold == EMPTY ==> post.tmp_block.code == pre.rg.bag@[0],
        pre.hold != EMPTY ==> post.tmp_block.code == pre.hold,
{
}

/// The hold key leaves a fresh piece at the spawn position in spawn
/// orientation.
pub proof fn law_hold_key_spawns_fresh(pre: Board, post: Board, reply: BoardReply)
    requires
        key_applied(pre, post, KeyType::Hold, reply),
    ensures
        post.tmp_block.pos == (SPAWN_X, SPAWN_Y),
        post.tmp_block.rotation == 0,
        post.hold == pre.tmp_block.code,
        reply == BoardReply::Done(0),
{
    let m = choose|m: Board| #[trigger] held(pre, m) && post == m.with_se(crate::protocol::SoundEffect::Hold) && reply
        == BoardReply::Done(0);
    law_hold_gives_fresh_piece(pre, m);
}

/// A player that is not a strategy player and holds a snapshot of its board
/// plays out its whole plan from it while playing and drops it whenever it
/// is not playing; a strategy player never drops one.
pub proof fn law_stale_snapshot_dropped(
    phase: ClientPhase,
    moveflag: bool,
    strategy: bool,
    queue_empty: bool,
)
    ensures
        !strategy && phase != ClientPhase::Playing ==> decision(phase, moveflag, strategy, true, queue_empty)
            == Step::Discard,
        !strategy && phase == ClientPhase::Playing ==> decision(phase, moveflag, strategy, true, queue_empty)
            == Step::SendAll,
        strategy ==> decision(phase, moveflag, strategy, true, queue_empty) != Step::Discard,
        decision(phase, moveflag, strategy, false, queue_empty) == Step::Wait,
{
}

/// After a game over (with no start or request since), a player that is not
/// a strategy player drops any snapshot it holds and sends nothing.
pub proof fn law_snapshot_dropped_after_game_over(
    evs: Seq<ServerEvent>,
    moveflag: bool,
    queue_empty: bool,
)
    requires
        !last_phase_msg_starts(evs),
    ensures
        decision(phase_after_all(ClientPhase::Waiting, evs), moveflag, false, true, queue_empty) == Step::Discard,
{
    law_phase_follows_messages(evs);
}

} // verus!
