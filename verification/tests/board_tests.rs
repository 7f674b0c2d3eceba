use mpboard::block::Block;
use mpboard::board::{next_hole, Board};
use mpboard::protocol::{BoardMsg, BoardReply, KeyType, SoundEffect};
use mpboard::random_generator::RandomGenerator;
use std::collections::HashSet;

/// A board whose column `x` is filled from the bottom up to `heights[x]`.
fn generate_solidlines(heights: [usize; 10]) -> Board {
    let mut board = Board::new(1);
    for x in 0..10 {
        for y in 0..heights[x] {
            board.color[y * 10 + x] = 2;
        }
    }
    board
}

fn seeded_board(seed: u64) -> Board {
    let mut board = Board::new(1);
    board.rg = RandomGenerator::from_seed(seed);
    board
}

fn cell(board: &Board, x: usize, y: usize) -> u8 {
    board.color[y * 10 + x]
}

#[test]
fn test_is_pos_inside() {
    let board = Board::new(1);
    assert_eq!(board.is_pos_inside((10, 40)), false);
    assert_eq!(board.is_pos_inside((10, 5)), false);
    assert_eq!(board.is_pos_inside((0, 0)), true);
    assert_eq!(board.is_pos_inside((4, 20)), true);
}

#[test]
fn test_test_twist() {
    let mut board = generate_solidlines([2, 3, 0, 2, 0, 0, 0, 0, 0, 0]);
    board.color[39 * 10 + 1] = 7; // sdp: (1, 0)
    board.tmp_block = Block::new(1); // █▄▄
    board.tmp_block.pos.0 = 1;
    board.tmp_block.pos.1 = 0;
    board.tmp_block.rotation = 3;
    assert_eq!(board.test_twist(), 2);
}

#[test]
fn test_calc_shadow() {
    let mut board = generate_solidlines([1, 3, 2, 5, 4, 1, 2, 5, 2, 0]);
    board.tmp_block = Block::new(1); // █▄▄
    assert!(!board.calc_shadow());
    let mut blocks: HashSet<(i32, i32)> = HashSet::new();
    blocks.insert((3, 6));
    blocks.insert((3, 5));
    blocks.insert((4, 5));
    blocks.insert((5, 5));
    let shadow_pos = board.shadow_block.getpos();
    println!("{:?} {:?}", blocks, shadow_pos);
    for i in 0..4 {
        blocks.remove(&(shadow_pos[i].0 as i32, shadow_pos[i].1 as i32));
    }
    assert!(blocks.is_empty());
    board.move2(-1); // move to very left
    assert!(!board.calc_shadow());

    blocks.insert((0, 4));
    blocks.insert((0, 3));
    blocks.insert((1, 3));
    blocks.insert((2, 3));
    let shadow_pos = board.shadow_block.getpos();
    println!("{:?} {:?}", blocks, shadow_pos);
    for i in 0..4 {
        blocks.remove(&(shadow_pos[i].0 as i32, shadow_pos[i].1 as i32));
    }
}

#[test]
fn test_is_pos_vacant() {
    let mut board = Board::new(1);
    assert!(board.is_pos_vacant((0, 0)));
    assert!(!board.is_pos_vacant((-1, 0)));
    assert!(!board.is_pos_vacant((0, 40)));
    board.color[3 * 10 + 2] = 4;
    assert!(!board.is_pos_vacant((2, 3)));
    assert!(board.is_pos_vacant((3, 2)));
}

#[test]
fn test_new_board() {
    let board = Board::new(9);
    assert_eq!(board.id, 9);
    assert_eq!(board.hold, 7);
    assert_eq!(board.height, 0);
    assert_eq!(board.last_se, SoundEffect::Silence);
    assert!(board.color.iter().all(|&c| c == 7));
    assert_eq!(board.color.len(), 400);
    assert_eq!(board.replay.block_seq, vec![board.tmp_block.code]);
    assert_eq!(board.tmp_block.pos, (3, 20));
    assert_eq!(board.tmp_block.rotation, 0);
    assert_eq!(board.rg.bag.len(), 13);
    // on an empty field the piece lands on the floor
    let lowest = board.shadow_block.getpos().iter().map(|p| p.1).min().unwrap();
    assert_eq!(lowest, 0);
    assert_eq!(board.shadow_block.pos.0, board.tmp_block.pos.0);
}

#[test]
fn test_left_right_moves() {
    let mut board = seeded_board(3);
    board.tmp_block = Block::new(5);
    assert_eq!(board.handle_msg(BoardMsg::KeyEvent(KeyType::Left)), BoardReply::Done(0));
    assert_eq!(board.tmp_block.pos, (2, 20));
    assert_eq!(board.handle_msg(BoardMsg::KeyEvent(KeyType::Right)), BoardReply::Done(0));
    assert_eq!(board.tmp_block.pos, (3, 20));
    board.handle_msg(BoardMsg::KeyEvent(KeyType::LLeft));
    assert_eq!(board.tmp_block.pos, (0, 20));
    // against the wall nothing moves
    board.handle_msg(BoardMsg::KeyEvent(KeyType::Left));
    assert_eq!(board.tmp_block.pos, (0, 20));
    board.handle_msg(BoardMsg::KeyEvent(KeyType::RRight));
    assert_eq!(board.tmp_block.pos, (7, 20));
    assert_eq!(board.replay.operations.len(), 5);
    assert_eq!(board.replay.operations[0], BoardMsg::KeyEvent(KeyType::Left));
}

#[test]
fn test_shapes_at_spawn() {
    let expected: [[(i32, i32); 4]; 7] = [
        [(3, 22), (4, 22), (5, 22), (6, 22)],
        [(3, 22), (3, 21), (4, 21), (5, 21)],
        [(5, 22), (3, 21), (4, 21), (5, 21)],
        [(4, 22), (5, 22), (4, 21), (5, 21)],
        [(4, 22), (5, 22), (3, 21), (4, 21)],
        [(4, 22), (3, 21), (4, 21), (5, 21)],
        [(3, 22), (4, 22), (4, 21), (5, 21)],
    ];
    for code in 0..7u8 {
        let b = Block::new(code);
        assert_eq!(b.getpos(), expected[code as usize].to_vec());
    }
}

#[test]
fn test_block_rotate_and_compress() {
    let mut b = Block::new(5);
    b.rotate(1);
    assert_eq!(b.rotation, 1);
    // T pointing right
    assert_eq!(b.getpos(), vec![(5, 21), (4, 22), (4, 21), (4, 20)]);
    b.rotate(-1);
    b.rotate(-1);
    assert_eq!(b.rotation, 3);
    b.rotate(2);
    assert_eq!(b.rotation, 1);
    let (pos, code) = b.compress();
    assert_eq!(pos, [5, 21, 4, 22, 4, 21, 4, 20]);
    assert_eq!(code, 5);
    b.pos = (-1, 0);
    let (pos, _) = b.compress();
    assert_eq!(pos[0], 1);
    assert_eq!(pos[2], 0);
}

#[test]
fn test_rotate_in_open_field() {
    let mut board = seeded_board(5);
    board.tmp_block = Block::new(5);
    assert_eq!(board.handle_msg(BoardMsg::KeyEvent(KeyType::Rotate)), BoardReply::Done(0));
    assert_eq!(board.tmp_block.rotation, 1);
    assert_eq!(board.tmp_block.pos, (3, 20));
    assert_eq!(board.last_se, SoundEffect::Rotate(1));
    board.handle_msg(BoardMsg::KeyEvent(KeyType::RotateFlip));
    assert_eq!(board.tmp_block.rotation, 3);
    board.handle_msg(BoardMsg::KeyEvent(KeyType::RotateReverse));
    assert_eq!(board.tmp_block.rotation, 2);
}

#[test]
fn test_o_piece_does_not_turn() {
    let mut board = seeded_board(5);
    board.tmp_block = Block::new(3);
    board.handle_msg(BoardMsg::KeyEvent(KeyType::Rotate));
    assert_eq!(board.tmp_block.rotation, 0);
    assert_eq!(board.last_se, SoundEffect::Rotate(0));
}

#[test]
fn test_rotate_uses_wall_kick() {
    let mut board = seeded_board(5);
    // a vertical I against the left wall: turning back to flat needs a kick
    board.tmp_block = Block::new(0);
    board.tmp_block.rotation = 3;
    board.tmp_block.pos = (-1, 10);
    assert!(board.tmp_block.test(&board));
    board.handle_msg(BoardMsg::KeyEvent(KeyType::Rotate));
    assert_eq!(board.tmp_block.rotation, 0);
    assert_eq!(board.last_se, SoundEffect::Rotate(1));
    // the I kick from left to spawn orientation: (+1, 0)
    assert_eq!(board.tmp_block.pos, (0, 10));
    assert!(board.tmp_block.test(&board));
}

#[test]
fn test_rotate_fails_when_boxed_in() {
    let mut board = seeded_board(5);
    for i in 0..400 {
        board.color[i] = 2;
    }
    // carve out a horizontal slot just big enough for a flat I
    for x in 3..7 {
        board.color[22 * 10 + x] = 7;
    }
    board.tmp_block = Block::new(0);
    assert!(board.tmp_block.test(&board));
    board.handle_msg(BoardMsg::KeyEvent(KeyType::Rotate));
    assert_eq!(board.tmp_block.rotation, 0);
    assert_eq!(board.tmp_block.pos, (3, 20));
    assert_eq!(board.last_se, SoundEffect::Rotate(0));
}

#[test]
fn test_hold_twice_swaps_back() {
    let mut board = seeded_board(11);
    board.tmp_block = Block::new(5);
    let next = board.rg.bag[0];
    board.handle_msg(BoardMsg::KeyEvent(KeyType::Hold));
    assert_eq!(board.hold, 5);
    assert_eq!(board.tmp_block.code, next);
    assert_eq!(board.last_se, SoundEffect::Hold);
    board.handle_msg(BoardMsg::KeyEvent(KeyType::Left));
    board.handle_msg(BoardMsg::KeyEvent(KeyType::Hold));
    assert_eq!(board.hold, next);
    assert_eq!(board.tmp_block.code, 5);
    assert_eq!(board.tmp_block.pos, (3, 20));
    board.handle_msg(BoardMsg::KeyEvent(KeyType::Hold));
    assert_eq!(board.hold, 5);
    assert_eq!(board.tmp_block.code, next);
}

#[test]
fn test_hard_drop_on_empty_field() {
    let mut board = seeded_board(21);
    board.tmp_block = Block::new(5);
    board.calc_shadow();
    let next = board.rg.bag[0];
    let reply = board.handle_msg(BoardMsg::KeyEvent(KeyType::HardDrop));
    assert_eq!(reply, BoardReply::Done(0));
    // T lies on the floor: three cells in row 0, one in row 1
    assert_eq!(cell(&board, 3, 0), 5);
    assert_eq!(cell(&board, 4, 0), 5);
    assert_eq!(cell(&board, 5, 0), 5);
    assert_eq!(cell(&board, 4, 1), 5);
    assert_eq!(cell(&board, 3, 1), 7);
    assert_eq!(board.height, 2);
    assert_eq!(board.last_se, SoundEffect::PlainDrop);
    assert_eq!(board.tmp_block.code, next);
    assert_eq!(board.replay.block_seq.last(), Some(&next));
}

#[test]
fn test_soft_drop_then_drop() {
    let mut board = seeded_board(21);
    board.tmp_block = Block::new(1);
    board.calc_shadow();
    assert_eq!(board.handle_msg(BoardMsg::KeyEvent(KeyType::SoftDrop)), BoardReply::Done(0));
    assert_eq!(board.last_se, SoundEffect::SoftDrop);
    assert_eq!(board.tmp_block.pos.1, board.shadow_block.pos.1);
    // already resting: a second soft drop locks it
    assert_eq!(board.handle_msg(BoardMsg::KeyEvent(KeyType::SoftDrop)), BoardReply::Done(0));
    assert_eq!(cell(&board, 3, 1), 1);
    assert_eq!(cell(&board, 3, 0), 1);
    assert_eq!(cell(&board, 5, 0), 1);
    assert_eq!(board.last_se, SoundEffect::PlainDrop);
}

#[test]
fn test_tetris_clears_four_lines() {
    let mut board = generate_solidlines([4, 4, 4, 4, 4, 4, 4, 4, 4, 0]);
    board.rg = RandomGenerator::from_seed(1);
    board.height = 4;
    board.color[5 * 10 + 2] = 6; // a lone cell above the stack
    board.tmp_block = Block::new(0);
    board.tmp_block.rotation = 1; // vertical I, cells in box column 2
    board.tmp_block.pos = (7, 10);
    board.calc_shadow();
    assert_eq!(board.shadow_block.pos.1, 0);
    let reply = board.handle_msg(BoardMsg::KeyEvent(KeyType::HardDrop));
    assert_eq!(reply, BoardReply::Done(4));
    assert_eq!(board.height, 0);
    assert_eq!(board.last_se, SoundEffect::AttackDrop2);
    assert_eq!(board.gaman.cm, 1);
    assert_eq!(board.gaman.tcm, 1);
    // the lone cell moved down by four rows
    assert_eq!(cell(&board, 2, 1), 6);
    assert_eq!(cell(&board, 2, 5), 7);
    for x in 0..10 {
        assert_eq!(cell(&board, x, 0), 7);
    }
}

#[test]
fn test_single_clear_sends_no_lines_and_counts_combo() {
    let mut board = generate_solidlines([1, 1, 1, 1, 1, 1, 1, 1, 1, 0]);
    board.rg = RandomGenerator::from_seed(1);
    board.height = 1;
    board.tmp_block = Block::new(0);
    board.tmp_block.rotation = 1;
    board.tmp_block.pos = (7, 10);
    board.calc_shadow();
    let reply = board.handle_msg(BoardMsg::KeyEvent(KeyType::HardDrop));
    assert_eq!(reply, BoardReply::Done(0));
    assert_eq!(board.last_se, SoundEffect::ClearDrop);
    assert_eq!(board.gaman.cm, 1);
    assert_eq!(board.gaman.tcm, 0);
    // three cells of the I remain in column 9, moved down by one
    assert_eq!(cell(&board, 9, 0), 0);
    assert_eq!(cell(&board, 9, 2), 0);
    assert_eq!(cell(&board, 9, 3), 7);
    assert_eq!(board.height, 3);
}

#[test]
fn test_attacks_overflow_into_garbage() {
    let mut board = seeded_board(77);
    for _ in 0..5 {
        assert_eq!(board.handle_msg(BoardMsg::Attacked(2)), BoardReply::Done(0));
    }
    assert_eq!(board.gaman.garbages.len(), 5);
    let reply = board.handle_msg(BoardMsg::Attacked(3));
    assert_eq!(reply, BoardReply::GarbageOverflow);
    assert_eq!(board.gaman.garbages.len(), 5);
    assert_eq!(board.gaman.garbages.iter().copied().collect::<Vec<u32>>(), vec![2, 2, 2, 2, 3]);
    assert_eq!(board.height, 2);
    for y in 0..2 {
        let holes = (0..10).filter(|&x| cell(&board, x, y) == 7).count();
        let garbage = (0..10).filter(|&x| cell(&board, x, y) == 2).count();
        assert_eq!(holes, 1);
        assert_eq!(garbage, 9);
    }
    assert!((0..10).all(|x| cell(&board, x, 2) == 7));
}

#[test]
fn test_plain_drop_takes_in_pending_garbage() {
    let mut board = seeded_board(8);
    board.handle_msg(BoardMsg::Attacked(3));
    board.tmp_block = Block::new(3);
    board.calc_shadow();
    let reply = board.handle_msg(BoardMsg::KeyEvent(KeyType::HardDrop));
    assert_eq!(reply, BoardReply::Done(0));
    assert_eq!(board.gaman.garbages.len(), 0);
    // the O piece (rows 0-1) was pushed up by three garbage lines
    assert_eq!(board.height, 5);
    assert_eq!(cell(&board, 4, 3), 3);
    assert_eq!(cell(&board, 5, 4), 3);
    for y in 0..3 {
        assert_eq!((0..10).filter(|&x| cell(&board, x, y) == 7).count(), 1);
    }
}

#[test]
fn test_attack_cancels_pending_garbage() {
    let mut board = generate_solidlines([4, 4, 4, 4, 4, 4, 4, 4, 4, 0]);
    board.rg = RandomGenerator::from_seed(1);
    board.height = 4;
    board.gaman.garbages.push_back(1);
    board.gaman.garbages.push_back(5);
    board.tmp_block = Block::new(0);
    board.tmp_block.rotation = 1;
    board.tmp_block.pos = (7, 10);
    board.calc_shadow();
    let reply = board.handle_msg(BoardMsg::KeyEvent(KeyType::HardDrop));
    // four lines cancel 1 + 3 of the pending 1 and 5
    assert_eq!(reply, BoardReply::Done(0));
    assert_eq!(board.gaman.garbages.iter().copied().collect::<Vec<u32>>(), vec![2]);
}

#[test]
fn test_generate_garbage_caps_at_forty_rows() {
    let mut board = seeded_board(4);
    board.gaman.garbages.push_back(50);
    board.gaman.garbages.push_back(1);
    let rows = board.generate_garbage(1);
    assert_eq!(rows, 40);
    assert_eq!(board.gaman.garbages.iter().copied().collect::<Vec<u32>>(), vec![1]);
    for y in 0..40 {
        assert_eq!((0..10).filter(|&x| cell(&board, x, y) == 7).count(), 1);
    }
}

#[test]
fn test_insert_garbage_exact_rows() {
    let mut board = seeded_board(4);
    board.color[0 * 10 + 0] = 4;
    board.insert_garbage(&vec![3, 3, 8]);
    assert_eq!(cell(&board, 0, 3), 4);
    assert_eq!(cell(&board, 0, 0), 2);
    assert_eq!(cell(&board, 3, 0), 7);
    assert_eq!(cell(&board, 3, 1), 7);
    assert_eq!(cell(&board, 8, 2), 7);
    assert_eq!(cell(&board, 3, 2), 2);
}

#[test]
fn test_garbage_pushes_blocked_piece_down() {
    let mut board = seeded_board(4);
    board.tmp_block = Block::new(3);
    board.tmp_block.pos = (3, -1); // O resting on the floor
    board.insert_garbage(&vec![0]);
    // the O no longer fits and goes one row down
    assert_eq!(board.tmp_block.pos, (3, -2));
}

#[test]
fn test_topping_out_dies() {
    let mut board = seeded_board(9);
    // fill everything up to row 22 except a gap that keeps rows from clearing
    for y in 0..23 {
        for x in 1..10 {
            board.color[y * 10 + x] = 2;
        }
    }
    board.height = 23;
    board.tmp_block = Block::new(3);
    board.tmp_block.pos = (-1, 30);
    board.calc_shadow();
    let reply = board.handle_msg(BoardMsg::KeyEvent(KeyType::HardDrop));
    assert_eq!(reply, BoardReply::Die);
}

#[test]
fn test_display_reflects_board() {
    let mut board = seeded_board(2);
    board.color[5] = 4;
    board.color[250] = 6;
    board.gaman.garbages.push_back(3);
    let d = board.generate_display();
    assert_eq!(d.id, 1);
    assert_eq!(d.color.len(), 400);
    assert_eq!(d.color[5], 4);
    assert_eq!(d.color[250], 7);
    assert_eq!(d.hold, 7);
    assert_eq!(d.tmp_code, board.tmp_block.code);
    assert_eq!(d.shadow_code, board.shadow_block.code);
    assert_eq!(d.bag_preview.to_vec(), board.rg.bag[0..6].to_vec());
    assert_eq!(d.garbages.iter().copied().collect::<Vec<u32>>(), vec![3]);
    let (tmp_pos, _) = board.tmp_block.compress();
    assert_eq!(d.tmp_pos, tmp_pos);
}

#[test]
fn test_turn_back_undoes_turn() {
    let mut board = seeded_board(6);
    board.tmp_block = Block::new(6);
    board.tmp_block.pos = (4, 10);
    let before = board.tmp_block;
    board.handle_msg(BoardMsg::KeyEvent(KeyType::Rotate));
    assert_eq!(board.tmp_block.rotation, 1);
    board.handle_msg(BoardMsg::KeyEvent(KeyType::RotateReverse));
    assert_eq!(board.tmp_block.rotation, before.rotation);
    assert_eq!(board.tmp_block.pos, before.pos);
    board.handle_msg(BoardMsg::KeyEvent(KeyType::RotateFlip));
    board.handle_msg(BoardMsg::KeyEvent(KeyType::RotateFlip));
    assert_eq!(board.tmp_block.rotation, before.rotation);
    assert_eq!(board.tmp_block.pos, before.pos);
}

#[test]
fn test_nothing_changes_nothing() {
    let mut board = seeded_board(6);
    let tmp = board.tmp_block;
    let color = board.color.clone();
    assert_eq!(board.handle_msg(BoardMsg::KeyEvent(KeyType::Nothing)), BoardReply::Done(0));
    assert_eq!(board.tmp_block.pos, tmp.pos);
    assert_eq!(board.color, color);
    assert_eq!(board.replay.operations, vec![BoardMsg::KeyEvent(KeyType::Nothing)]);
}

#[test]
fn test_first_piece_opens_a_bag() {
    for seed in 0..20u64 {
        let board = Board::new(seed as i32);
        let mut kinds: Vec<u8> = vec![board.tmp_block.code];
        kinds.extend_from_slice(&board.rg.bag[0..6]);
        kinds.sort();
        assert_eq!(kinds, vec![0, 1, 2, 3, 4, 5, 6]);
    }
}

#[test]
fn test_next_hole_keeps_column_on_low_draw() {
    let mut rg = RandomGenerator::from_seed(5);
    for prev in 0..10usize {
        assert_eq!(next_hole(&mut rg.rng, prev, 0), prev);
        // the top 24 bits just below the threshold 0.6 * 2^24
        assert_eq!(next_hole(&mut rg.rng, prev, (10066329u32 << 8) | 0xff), prev);
        assert!(next_hole(&mut rg.rng, prev, u32::MAX) < 10);
    }
}

#[test]
fn test_slide_by_two_columns() {
    let mut board = Board::new(1);
    board.tmp_block = Block::new(5);
    let x0 = board.tmp_block.pos.0;
    board.move2(2);
    let x1 = board.tmp_block.pos.0;
    assert!(x1 <= x0);
    assert_eq!((x0 - x1) % 2, 0);
    assert!(board.tmp_block.test(&board));
    let mut further = board.tmp_block;
    further.pos.0 -= 2;
    assert!(!further.test(&board));
}

#[test]
fn test_blocked_piece_keeps_sinking_far_below() {
    let mut board = seeded_board(4);
    board.tmp_block = Block::new(3);
    board.tmp_block.pos = (3, -64);
    board.insert_garbage(&vec![0]);
    assert_eq!(board.tmp_block.pos, (3, -65));
    board.insert_garbage(&vec![1, 2, 3]);
    assert_eq!(board.tmp_block.pos, (3, -68));
}

#[test]
fn test_far_slides_fail_at_once() {
    let mut board = Board::new(1);
    board.tmp_block = Block::new(5);
    let start = board.tmp_block.pos;
    board.move2(100);
    assert_eq!(board.tmp_block.pos, start);
    board.move2(-1000);
    assert_eq!(board.tmp_block.pos, start);
    board.move2(i32::MIN + 20);
    assert_eq!(board.tmp_block.pos, start);
    board.move2(i32::MAX - 20);
    assert_eq!(board.tmp_block.pos, start);
}
