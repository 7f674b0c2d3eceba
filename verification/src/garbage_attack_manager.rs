//! Incoming garbage and outgoing attacks.

use std::collections::VecDeque;
use vstd::prelude::*;

verus! {

/// Pending garbage (lines to be pushed into the field, oldest first) and the
/// counters that raise attacks: `cm` counts consecutive clearing drops,
/// `tcm` consecutive "difficult" clears (four lines, or a twist).
pub struct GarbageAttackManager {
    pub garbages: VecDeque<u32>,
    pub cm: u32,
    pub tcm: u32,
}

/// Total of the pending garbage.
pub open spec fn total(q: Seq<u32>) -> int
    decreases q.len(),
{
    if q.len() == 0 {
        0
    } else {
        q[0] + total(q.drop_first())
    }
}

/// An attack of `a` lines first cancels pending garbage, oldest first:
/// the queue that is left, and what remains of the attack.
pub open spec fn cancel(q: Seq<u32>, a: int) -> (Seq<u32>, int)
    decreases q.len(),
{
    if a <= 0 || q.len() == 0 {
        (q, a)
    } else if q[0] <= a {
        cancel(q.drop_first(), a - q[0])
    } else {
        (q.update(0, (q[0] - a) as u32), 0)
    }
}

/// Lines an attack gets from the clear itself: a regular twist sends two per
/// line, a mini twist one per line; otherwise 0, 1, 2 and 4 lines for
/// clears of one, two, three and four lines.
pub open spec fn line_attack(twist: int, lines: int) -> int {
    if twist == 2 {
        2 * lines
    } else if twist == 1 {
        lines
    } else if lines >= 4 {
        4
    } else if lines == 3 {
        2
    } else if lines == 2 {
        1
    } else {
        0
    }
}

/// A clear of four lines, or a twist that clears lines.
pub open spec fn difficult(twist: int, lines: int) -> bool {
    lines >= 4 || (twist > 0 && lines > 0)
}

/// The attack a drop raises before cancelling: nothing without a clear;
/// otherwise the clear's lines, plus half the combo counter, plus one for a
/// difficult clear right after another, plus ten for a perfect clear.
pub open spec fn raw_attack(twist: int, lines: int, cm: int, tcm: int, pc: bool) -> int {
    if lines == 0 {
        0
    } else {
        line_attack(twist, lines) + cm / 2 + (if difficult(twist, lines) && tcm > 0 { 1int } else { 0 }) + (
        if pc { 10int } else { 0 })
    }
}

/// `x + 1`, but no more than `u32::MAX`.
pub open spec fn bump(x: u32) -> u32 {
    if x == u32::MAX { x } else { (x + 1) as u32 }
}

/// Cancelling never creates or loses lines: what the attack lost is what
/// the queue lost; the attack only survives an emptied queue.
pub proof fn lemma_cancel_conserves(q: Seq<u32>, a: int)
    requires
        a >= 0,
    ensures
        total(q) - total(cancel(q, a).0) == a - cancel(q, a).1,
        0 <= cancel(q, a).1 <= a,
        cancel(q, a).1 > 0 ==> cancel(q, a).0.len() == 0,
        cancel(q, a).0.len() <= q.len(),
    decreases q.len(),
{
    if a <= 0 || q.len() == 0 {
    } else if q[0] <= a {
        lemma_cancel_conserves(q.drop_first(), a - q[0]);
    } else {
        let u = q.update(0, (q[0] - a) as u32);
        assert(u.drop_first() =~= q.drop_first());
    }
}

impl GarbageAttackManager {
    /// Nothing pending, counters at zero.
    pub fn new() -> (r: GarbageAttackManager)
        ensures
            r.garbages@ == Seq::<u32>::empty(),
            r.cm == 0,
            r.tcm == 0,
    {
        GarbageAttackManager { garbages: VecDeque::new(), cm: 0, tcm: 0 }
    }

    /// Queues an incoming attack of `amount` lines behind the others.
    pub fn push_garbage(&mut self, amount: u32)
        ensures
            final(self).garbages@ == old(self).garbages@.push(amount),
            final(self).cm == old(self).cm,
            final(self).tcm == old(self).tcm,
    {
        self.garbages.push_back(amount);
    }

    /// The attack of a drop that cleared `line_count` lines with twist kind
    /// `twist` (0 none, 1 mini, 2 regular): the raw attack first cancels
    /// pending garbage, and what is left is returned.  Updates the counters.
    /// The piece kind `code` does not change the attack in this rule set.
    pub fn calc_attack(&mut self, twist: u32, line_count: u32, code: u8, pc: bool) -> (atk: u32)
        requires
            2 * line_count + old(self).cm / 2 + 11 <= u32::MAX,
        ensures
            (final(self).garbages@, atk as int) == cancel(
                old(self).garbages@,
                raw_attack(twist as int, line_count as int, old(self).cm as int, old(self).tcm as int, pc),
            ),
            final(self).cm == (if line_count == 0 { 0 } else { bump(old(self).cm) }),
            final(self).tcm == (if line_count == 0 {
                old(self).tcm
            } else if difficult(twist as int, line_count as int) {
                bump(old(self).tcm)
            } else {
                0
            }),
    {
        let mut atk: u32 = 0;
        if line_count > 0 {
            let hard = line_count >= 4 || (twist > 0 && line_count > 0);
            let base: u32 = if twist == 2 {
                2 * line_count
            } else if twist == 1 {
                line_count
            } else if line_count >= 4 {
                4
            } else if line_count == 3 {
                2
            } else if line_count == 2 {
                1
            } else {
                0
            };
            atk = base + self.cm / 2;
            if hard && self.tcm > 0 {
                atk = atk + 1;
            }
            if pc {
                atk = atk + 10;
            }
            if self.cm < u32::MAX {
                self.cm = self.cm + 1;
            }
            if hard {
                if self.tcm < u32::MAX {
                    self.tcm = self.tcm + 1;
                }
            } else {
                self.tcm = 0;
            }
        } else {
            self.cm = 0;
        }
        let ghost raw = atk as int;
        let ghost q0 = self.garbages@;
        let ghost cm1 = self.cm;
        let ghost tcm1 = self.tcm;
        assert(raw == raw_attack(twist as int, line_count as int, old(self).cm as int, old(self).tcm as int, pc));
        loop
            invariant
                self.cm == cm1,
                self.tcm == tcm1,
                cancel(self.garbages@, atk as int) == cancel(q0, raw),
            ensures
                cancel(q0, raw) == (self.garbages@, atk as int),
            decreases self.garbages@.len() + (if atk > 0 { 1int } else { 0 }),
        {
            if atk == 0 {
                break;
            }
            match self.garbages.pop_front() {
                None => {
                    break;
                },
                Some(front) => {
                    if front <= atk {
                        atk = atk - front;
                    } else {
                        let ghost popped = self.garbages@;
                        self.garbages.push_front(front - atk);
                        proof {
                            let q = seq![front] + popped;
                            assert(q.drop_first() =~= popped);
                            assert(q.update(0, (front - atk) as u32) =~= self.garbages@);
                        }
                        atk = 0;
                    }
                },
            }
        }
        atk
    }
}

} // verus!
