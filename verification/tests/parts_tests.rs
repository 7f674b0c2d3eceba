use mpboard::client::{ClientPhase, ClientState, ReceiveAction, ServerEvent, Step};
use mpboard::display::Display;
use mpboard::garbage_attack_manager::GarbageAttackManager;
use mpboard::protocol::{BoardMsg, KeyType};
use mpboard::random_generator::{random_below, RandomGenerator};
use mpboard::replay::Replay;
use mpboard::rules::{kick_offset, shape_offset, twist_corner_offset};

fn pending(g: &GarbageAttackManager) -> Vec<u32> {
    g.garbages.iter().copied().collect()
}

#[test]
fn test_attack_table() {
    let mut g = GarbageAttackManager::new();
    assert_eq!(g.calc_attack(0, 1, 2, false), 0);
    assert_eq!(g.calc_attack(0, 2, 2, false), 1);
    assert_eq!(g.calc_attack(0, 3, 2, false), 3);
    // combo counter 3 now: +1
    assert_eq!(g.calc_attack(0, 4, 0, false), 5);
    assert_eq!(g.cm, 4);
    assert_eq!(g.tcm, 1);
    // back to back difficult clear: regular twist double, +2 combo, +1 b2b
    assert_eq!(g.calc_attack(2, 2, 5, false), 4 + 2 + 1);
    assert_eq!(g.tcm, 2);
    // no clear breaks the combo, keeps the b2b counter
    assert_eq!(g.calc_attack(2, 0, 5, false), 0);
    assert_eq!(g.cm, 0);
    assert_eq!(g.tcm, 2);
    // a plain single breaks the b2b counter
    assert_eq!(g.calc_attack(0, 1, 5, false), 0);
    assert_eq!(g.tcm, 0);
    // mini twist one per line, perfect clear ten more
    assert_eq!(g.calc_attack(1, 1, 5, true), 1 + 0 + 10);
}

#[test]
fn test_attack_cancellation() {
    let mut g = GarbageAttackManager::new();
    g.push_garbage(2);
    g.push_garbage(2);
    assert_eq!(pending(&g), vec![2, 2]);
    // four lines: 4 against 2 + 2
    assert_eq!(g.calc_attack(0, 4, 0, false), 0);
    assert_eq!(pending(&g), Vec::<u32>::new());
    g.push_garbage(1);
    // 4 + 0 (cm 1 / 2) + 1 (b2b): 5, one cancelled
    assert_eq!(g.calc_attack(0, 4, 0, false), 4);
    g.push_garbage(7);
    assert_eq!(g.calc_attack(0, 3, 0, false), 0);
    assert_eq!(pending(&g), vec![4]);
}

#[test]
fn test_cancel_conserves_lines() {
    let mut g = GarbageAttackManager::new();
    g.push_garbage(3);
    g.push_garbage(1);
    g.push_garbage(6);
    let before: u32 = pending(&g).iter().sum();
    let atk = g.calc_attack(2, 3, 5, false); // raw 6
    let after: u32 = pending(&g).iter().sum();
    assert_eq!(before - after, 6 - atk);
    assert_eq!(pending(&g), vec![4]);
}

#[test]
fn test_generator_deals_bags() {
    let mut rg = RandomGenerator::from_seed(123);
    assert_eq!(rg.bag.len(), 14);
    let mut dealt = Vec::new();
    for _ in 0..70 {
        let code = rg.get();
        assert!(code < 7);
        dealt.push(code);
        assert!(rg.bag.len() >= 7 && rg.bag.len() <= 14);
    }
    for chunk in dealt.chunks(7) {
        let mut c = chunk.to_vec();
        c.sort();
        assert_eq!(c, vec![0, 1, 2, 3, 4, 5, 6]);
    }
}

#[test]
fn test_generator_refills_after_a_bag() {
    let mut rg = RandomGenerator::from_seed(5);
    let start = rg.bag.clone();
    for _ in 0..7 {
        rg.get();
    }
    assert_eq!(rg.bag.len(), 7);
    assert_eq!(rg.bag, start[7..14].to_vec());
    let first = rg.get();
    assert_eq!(first, start[7]);
    assert_eq!(rg.bag.len(), 13);
    assert_eq!(rg.bag[0..6].to_vec(), start[8..14].to_vec());
}

#[test]
fn test_generator_shuffles() {
    // the seeded generator does not deal its first two bags in code order
    let rg = RandomGenerator::from_seed(42);
    let ordered: Vec<u8> = vec![0, 1, 2, 3, 4, 5, 6, 0, 1, 2, 3, 4, 5, 6];
    assert_ne!(rg.bag, ordered);
    let other = RandomGenerator::from_seed(42);
    assert_eq!(rg.bag, other.bag);
}

#[test]
fn test_random_below_stays_below() {
    let mut rg = RandomGenerator::from_seed(1);
    let mut seen = [false; 10];
    for _ in 0..500 {
        let r = random_below(&mut rg.rng, 10);
        assert!(r < 10);
        seen[r] = true;
    }
    assert!(seen.iter().all(|&s| s));
}

#[test]
fn test_display_new() {
    let d = Display::new(4);
    assert_eq!(d.id, 4);
    assert_eq!(d.color, vec![7u8; 400]);
    assert_eq!(d.shadow_pos, [0u8; 8]);
    assert_eq!(d.tmp_pos, [0u8; 8]);
    assert_eq!(d.shadow_code, 0);
    assert_eq!(d.tmp_code, 0);
    assert_eq!(d.hold, 7);
    assert_eq!(d.bag_preview, [0u8; 6]);
    assert_eq!(d.cm, 0);
    assert_eq!(d.tcm, 0);
    assert!(d.garbages.is_empty());
}

#[test]
fn test_replay_records() {
    let mut r = Replay::new();
    r.push_operation(BoardMsg::Attacked(3));
    r.push_block(4);
    r.push_operation(BoardMsg::KeyEvent(KeyType::Hold));
    assert_eq!(r.operations, vec![BoardMsg::Attacked(3), BoardMsg::KeyEvent(KeyType::Hold)]);
    assert_eq!(r.block_seq, vec![4]);
}

#[test]
fn test_kick_tables() {
    // J/L/S/T/Z spawn -> right
    assert_eq!(kick_offset(5, 0, 1, 2), (-1, 1));
    // right -> spawn is the opposite
    assert_eq!(kick_offset(5, 1, -1, 2), (1, -1));
    // spawn -> left
    assert_eq!(kick_offset(2, 0, -1, 4), (1, -2));
    // I: spawn -> right, and left -> spawn
    assert_eq!(kick_offset(0, 0, 1, 1), (-2, 0));
    assert_eq!(kick_offset(0, 3, 1, 4), (-2, 1));
    // half turns: in place, then one up
    assert_eq!(kick_offset(6, 2, 2, 0), (0, 0));
    assert_eq!(kick_offset(6, 2, 2, 1), (0, 1));
}

#[test]
fn test_shape_and_corner_offsets() {
    assert_eq!(shape_offset(0, 1, 0), (2, 3));
    assert_eq!(shape_offset(0, 2, 0), (3, 1));
    assert_eq!(shape_offset(3, 2, 0), (1, 2));
    assert_eq!(shape_offset(4, 3, 2), (1, 0));
    assert_eq!(twist_corner_offset(0, 1), (2, 2));
    assert_eq!(twist_corner_offset(3, 1), (0, 2));
}

#[test]
fn test_client_receives() {
    let mut s = ClientState::new(true);
    assert_eq!(s.phase, ClientPhase::Waiting);
    assert_eq!(s.on_message(ServerEvent::Display { own: true }), ReceiveAction::StoreDisplay);
    assert!(!s.moveflag);
    assert_eq!(s.on_message(ServerEvent::Display { own: false }), ReceiveAction::Nothing);
    assert!(s.moveflag);
    assert_eq!(s.on_message(ServerEvent::Request(12)), ReceiveAction::Accept(12));
    assert_eq!(s.phase, ClientPhase::Playing);
    assert_eq!(s.on_message(ServerEvent::GameOver), ReceiveAction::Nothing);
    assert_eq!(s.phase, ClientPhase::Over);
    assert_eq!(s.on_message(ServerEvent::Start), ReceiveAction::Nothing);
    assert_eq!(s.phase, ClientPhase::Playing);
    assert_eq!(s.on_message(ServerEvent::Other), ReceiveAction::Skip);
    assert_eq!(s.on_message(ServerEvent::Terminate), ReceiveAction::Quit);
    let mut plain = ClientState::new(false);
    plain.on_message(ServerEvent::Display { own: false });
    assert!(!plain.moveflag);
}

#[test]
fn test_client_decides() {
    let mut s = ClientState::new(true);
    assert_eq!(s.decide(false, true), Step::Wait);
    assert_eq!(s.decide(true, true), Step::Wait);
    s.on_message(ServerEvent::Start);
    assert_eq!(s.decide(true, true), Step::Wait);
    s.on_message(ServerEvent::Display { own: false });
    assert_eq!(s.decide(true, false), Step::SendOne { think_first: false });
    assert!(!s.moveflag);
    s.on_message(ServerEvent::Display { own: false });
    assert_eq!(s.decide(true, true), Step::SendOne { think_first: true });
    let mut plain = ClientState::new(false);
    assert_eq!(plain.decide(true, true), Step::Discard);
    plain.on_message(ServerEvent::Start);
    assert_eq!(plain.decide(true, false), Step::SendAll);
    assert_eq!(plain.decide(false, false), Step::Wait);
}
