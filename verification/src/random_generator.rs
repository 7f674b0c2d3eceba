//! The piece generator: pieces are dealt from shuffled bags of all seven kinds.

use rand::rngs::StdRng;
use rand::seq::SliceRandom;
use rand::Rng;
use rand::SeedableRng;
use vstd::prelude::*;

verus! {

broadcast use vstd::seq_lib::group_to_multiset_ensures;

#[verifier::external_type_specification]
#[verifier::external_body]
pub struct ExStdRng(StdRng);

/// `StdRng::from_entropy` (rand): a generator seeded from the operating
/// system.  Nothing is stated of its state.
#[verifier::external_body]
fn rng_from_entropy() -> StdRng {
    StdRng::from_entropy()
}

/// `SeedableRng::seed_from_u64` (rand): a generator whose whole output is
/// fixed by `seed`.  Nothing is stated of its state.
#[verifier::external_body]
fn rng_from_seed(seed: u64) -> StdRng {
    StdRng::seed_from_u64(seed)
}

/// `Rng::gen_range(0..n)` (rand): a value below `n`, which rand draws
/// uniformly.  The range is never empty here; rand panics on an empty one.
#[verifier::external_body]
pub fn random_below(rng: &mut StdRng, n: usize) -> (r: usize)
    requires
        0 < n,
    ensures
        r < n,
{
    rng.gen_range(0..n)
}

/// `Rng::gen::<u32>` (rand): any 32-bit value.
#[verifier::external_body]
pub fn random_u32(rng: &mut StdRng) -> u32 {
    rng.gen::<u32>()
}

/// `SliceRandom::shuffle` (rand) on the whole vector: the same elements in
/// an order that rand draws.
#[verifier::external_body]
fn shuffle(v: &mut Vec<u8>, rng: &mut StdRng)
    ensures
        final(v)@.to_multiset() == old(v)@.to_multiset(),
{
    v.shuffle(rng);
}

/// The seven piece codes, once each.
pub open spec fn all_kinds() -> Seq<u8> {
    seq![0u8, 1u8, 2u8, 3u8, 4u8, 5u8, 6u8]
}

/// A bag: the seven piece codes, once each, in some order.
pub open spec fn is_bag(s: Seq<u8>) -> bool {
    s.to_multiset() == all_kinds().to_multiset()
}

/// Every element of a bag is a piece code.
pub proof fn lemma_bag_elements(s: Seq<u8>, i: int)
    requires
        is_bag(s),
        0 <= i < s.len(),
    ensures
        s[i] < 7,
        s.len() == 7,
{
    s.to_multiset_ensures();
    all_kinds().to_multiset_ensures();
    assert(s.to_multiset().count(s[i]) > 0);
    assert(all_kinds().contains(s[i]));
    let j = choose|j: int| 0 <= j < 7 && all_kinds()[j] == s[i];
    assert(s.len() == s.to_multiset().len());
    assert(all_kinds().len() == all_kinds().to_multiset().len());
}

/// A bag has seven elements.
pub proof fn lemma_bag_len(s: Seq<u8>)
    requires
        is_bag(s),
    ensures
        s.len() == 7,
{
    assert(s.len() == s.to_multiset().len());
    assert(all_kinds().len() == all_kinds().to_multiset().len());
}

/// How the queue changes when a piece is dealt: the first entry goes; when
/// a single bag would be left, a new bag is shuffled in behind it.
pub open spec fn dealt(old_bag: Seq<u8>, new_bag: Seq<u8>) -> bool {
    &&& old_bag.len() > 7 ==> new_bag == old_bag.drop_first()
    &&& old_bag.len() == 7 ==> new_bag.len() == 13 && new_bag.subrange(0, 6) == old_bag.drop_first() && is_bag(
        new_bag.subrange(6, 13),
    )
}

/// Deals pieces bag by bag: `bag` holds what is left of the current bag
/// followed by the whole next bag, so that six pieces can always be
/// previewed.
pub struct RandomGenerator {
    pub rng: StdRng,
    pub bag: Vec<u8>,
}

impl RandomGenerator {
    /// The queue is the tail of a bag followed by a whole bag.
    pub open spec fn wf(&self) -> bool {
        let s = self.bag@;
        &&& 7 <= s.len() <= 14
        &&& is_bag(s.subrange(s.len() - 7, s.len() as int))
        &&& exists|p: Seq<u8>| is_bag(p) && #[trigger] p.subrange(14 - s.len(), 7) == s.subrange(0, s.len() - 7)
        &&& forall|i: int| 0 <= i < s.len() ==> #[trigger] s[i] < 7
    }

    fn fresh_bag(rng: &mut StdRng) -> (r: Vec<u8>)
        ensures
            is_bag(r@),
            r@.len() == 7,
    {
        let mut v: Vec<u8> = vec![0u8, 1u8, 2u8, 3u8, 4u8, 5u8, 6u8];
        assert(v@ =~= all_kinds());
        shuffle(&mut v, rng);
        proof {
            v@.to_multiset_ensures();
            all_kinds().to_multiset_ensures();
        }
        v
    }

    fn with_rng(mut rng: StdRng) -> (r: RandomGenerator)
        ensures
            r.wf(),
            r.bag@.len() == 14,
            is_bag(r.bag@.subrange(0, 7)),
    {
        let mut bag = Self::fresh_bag(&mut rng);
        let mut second = Self::fresh_bag(&mut rng);
        let ghost first = bag@;
        let ghost next = second@;
        bag.append(&mut second);
        let r = RandomGenerator { rng, bag };
        proof {
            let s = r.bag@;
            assert(s.subrange(7, 14) =~= next);
            assert(s.subrange(0, 7) =~= first);
            assert(first.subrange(0, 7) =~= first);
            assert(is_bag(first) && first.subrange(14 - s.len(), 7) == s.subrange(0, s.len() - 7));
            assert forall|i: int| 0 <= i < s.len() implies #[trigger] s[i] < 7 by {
                if i < 7 {
                    lemma_bag_elements(first, i);
                } else {
                    lemma_bag_elements(next, i - 7);
                }
            }
        }
        r
    }

    /// A generator seeded from the operating system.
    pub fn new() -> (r: RandomGenerator)
        ensures
            r.wf(),
            r.bag@.len() == 14,
            is_bag(r.bag@.subrange(0, 7)),
    {
        Self::with_rng(rng_from_entropy())
    }

    /// A generator whose whole sequence of pieces is fixed by `seed`.
    pub fn from_seed(seed: u64) -> (r: RandomGenerator)
        ensures
            r.wf(),
            r.bag@.len() == 14,
            is_bag(r.bag@.subrange(0, 7)),
    {
        Self::with_rng(rng_from_seed(seed))
    }

    /// Deals the next piece: the first of the queue.  When only one bag is
    /// left after that, a new bag is shuffled and appended.
    pub fn get(&mut self) -> (code: u8)
        requires
            old(self).wf(),
        ensures
            final(self).wf(),
            code == old(self).bag@[0],
            code < 7,
            dealt(old(self).bag@, final(self).bag@),
    {
        let ghost s = self.bag@;
        let ghost p = choose|p: Seq<u8>| is_bag(p) && #[trigger] p.subrange(14 - s.len(), 7) == s.subrange(0, s.len() - 7);
        proof {
            lemma_bag_len(p);
        }
        let code = self.bag.remove(0);
        assert(self.bag@ =~= s.drop_first());
        if self.bag.len() < 7 {
            let mut fresh = Self::fresh_bag(&mut self.rng);
            let ghost f = fresh@;
            self.bag.append(&mut fresh);
            proof {
                let t = self.bag@;
                let last = s.subrange(0, 7);
                assert(t.subrange(6, 13) =~= f);
                assert(last.subrange(1, 7) =~= t.subrange(0, 6));
                assert(t.subrange(0, 6) =~= s.drop_first());
                assert(last.subrange(14 - t.len(), 7) =~= t.subrange(0, t.len() - 7));
                assert(is_bag(last) && last.subrange(14 - t.len(), 7) == t.subrange(0, t.len() - 7));
                assert forall|i: int| 0 <= i < t.len() implies #[trigger] t[i] < 7 by {
                    if i < 6 {
                        assert(t[i] == s[i + 1]);
                    } else {
                        lemma_bag_elements(f, i - 6);
                    }
                }
            }
        } else {
            proof {
                let t = self.bag@;
                assert(t.subrange(t.len() - 7, t.len() as int) =~= s.subrange(s.len() - 7, s.len() as int));
                assert forall|j: int| 0 <= j < t.len() - 7 implies #[trigger] p.subrange(14 - t.len(), 7)[j]
                    == t.subrange(0, t.len() - 7)[j] by {
                    assert(s.subrange(0, s.len() - 7)[j + 1] == s[j + 1]);
                    assert(p.subrange(14 - s.len(), 7)[j + 1] == p[14 - s.len() + j + 1]);
                }
                assert(p.subrange(14 - t.len(), 7) =~= t.subrange(0, t.len() - 7));
                assert(is_bag(p) && p.subrange(14 - t.len(), 7) == t.subrange(0, t.len() - 7));
                assert forall|i: int| 0 <= i < t.len() implies #[trigger] t[i] < 7 by {
                    assert(t[i] == s[i + 1]);
                }
            }
        }
        code
    }
}

impl Default for RandomGenerator {
    /// A generator seeded from the operating system.
    fn default() -> (r: RandomGenerator)
        ensures
            r.wf(),
    {
        Self::new()
    }
}

} // verus!
