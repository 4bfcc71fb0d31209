//! The piece queue: a "7-bag" randomizer (each kind is drawn exactly once
//! before the bag refills) feeding a fixed lookahead buffer of three pieces.

use vstd::prelude::*;

use std::collections::VecDeque;
use vstd::multiset::Multiset;

use crate::piece::{PieceId, all_kinds};

verus! {

#[verifier::external_type_specification]
#[verifier::external_body]
pub struct ExStdRng(rand::rngs::StdRng);

/// Relies on rand's `SeedableRng::seed_from_u64` for `StdRng`: builds a
/// deterministic generator from the given seed.
#[verifier::external_body]
fn seeded_rng(seed: u64) -> rand::rngs::StdRng {
    <rand::rngs::StdRng as rand::SeedableRng>::seed_from_u64(seed)
}

/// Relies on rand's `Rng::gen_range` over the half-open range `0..n`: returns
/// a uniformly distributed index below `n` (and panics only on an empty
/// range, which the precondition rules out).
#[verifier::external_body]
fn gen_index(rng: &mut rand::rngs::StdRng, n: usize) -> (r: usize)
    requires
        n > 0,
    ensures
        r < n,
{
    rand::Rng::gen_range(rng, 0..n)
}

/// The bag a draw takes from: the current bag, refilled with one of each
/// kind when it has run empty.
pub open spec fn draw_src(bag: Seq<PieceId>) -> Seq<PieceId> {
    if bag.len() == 0 {
        all_kinds()
    } else {
        bag
    }
}

/// One bag draw: `d` is removed from the (possibly just refilled) bag at
/// some position, leaving `bag1`.
pub open spec fn draw_step(bag0: Seq<PieceId>, d: PieceId, bag1: Seq<PieceId>) -> bool {
    exists|i: int|
        0 <= i < draw_src(bag0).len() && d == draw_src(bag0)[i] && bag1 == draw_src(bag0).remove(i)
}

/// The upcoming-piece queue: a seeded random generator, the current bag, and
/// the lookahead buffer of the next three pieces in order.
pub struct PieceQueue {
    pub rng: rand::rngs::StdRng,
    pub bag: Vec<PieceId>,
    pub queue: VecDeque<PieceId>,
}

impl PieceQueue {
    /// The lookahead buffer always holds exactly three pieces.
    pub open spec fn wf(self) -> bool {
        self.queue@.len() == 3
    }

    /// Draw one piece from the bag, refilling it first if it is empty.
    fn pop_from_bag(rng: &mut rand::rngs::StdRng, bag: &mut Vec<PieceId>) -> (d: PieceId)
        ensures
            draw_step(old(bag)@, d, final(bag)@),
    {
        if bag.is_empty() {
            bag.push(PieceId::IBlock);
            bag.push(PieceId::JBlock);
            bag.push(PieceId::LBlock);
            bag.push(PieceId::OBlock);
            bag.push(PieceId::SBlock);
            bag.push(PieceId::TBlock);
            bag.push(PieceId::ZBlock);
            proof {
                assert(bag@ =~= all_kinds());
            }
        }
        let idx = gen_index(rng, bag.len());
        let d = bag.remove(idx);
        proof {
            assert(0 <= idx < draw_src(old(bag)@).len() && d == draw_src(old(bag)@)[idx as int]
                && bag@ == draw_src(old(bag)@).remove(idx as int));
        }
        d
    }

    /// A fresh queue: a generator seeded with `seed`, an empty bag, and a
    /// lookahead buffer filled with the first three bag draws.
    pub fn new(seed: u64) -> (q: PieceQueue)
        ensures
            q.wf(),
            exists|b1: Seq<PieceId>, b2: Seq<PieceId>|
                draw_step(Seq::empty(), q.queue@[0], b1) && draw_step(b1, q.queue@[1], b2)
                    && draw_step(b2, q.queue@[2], q.bag@),
    {
        let mut rng = seeded_rng(seed);
        let mut bag: Vec<PieceId> = Vec::new();
        let mut queue: VecDeque<PieceId> = VecDeque::new();
        let d0 = Self::pop_from_bag(&mut rng, &mut bag);
        let ghost b1 = bag@;
        queue.push_back(d0);
        let d1 = Self::pop_from_bag(&mut rng, &mut bag);
        let ghost b2 = bag@;
        queue.push_back(d1);
        let d2 = Self::pop_from_bag(&mut rng, &mut bag);
        queue.push_back(d2);
        let q = PieceQueue { rng, bag, queue };
        proof {
            assert(q.queue@[0] == d0 && q.queue@[1] == d1 && q.queue@[2] == d2);
            assert(draw_step(Seq::empty(), d0, b1) && draw_step(b1, d1, b2) && draw_step(
                b2,
                d2,
                q.bag@,
            ));
        }
        q
    }

    /// Remove and return the front of the lookahead buffer, then draw one
    /// piece from the bag and append it to the back.
    pub fn pop(&mut self) -> (d: PieceId)
        requires
            old(self).wf(),
        ensures
            final(self).wf(),
            d == old(self).queue@[0],
            final(self).queue@ == old(self).queue@.subrange(1, 3).push(final(self).queue@[2]),
            draw_step(old(self).bag@, final(self).queue@[2], final(self).bag@),
    {
        let out = match self.queue.pop_front() {
            Some(x) => x,
            None => vstd::pervasive::unreached(),
        };
        let next = Self::pop_from_bag(&mut self.rng, &mut self.bag);
        self.queue.push_back(next);
        out
    }

    /// The lookahead buffer's contents, front first, for display.
    pub fn iter(&self) -> (v: Vec<PieceId>)
        ensures
            v@ == self.queue@,
    {
        let mut v: Vec<PieceId> = Vec::new();
        let mut i: usize = 0;
        while i < self.queue.len()
            invariant
                i <= self.queue@.len(),
                v@ == self.queue@.subrange(0, i as int),
            decreases self.queue@.len() - i,
        {
            let x = self.queue[i];
            v.push(x);
            proof {
                assert(v@ =~= self.queue@.subrange(0, i + 1));
            }
            i += 1;
        }
        proof {
            assert(v@ =~= self.queue@);
        }
        v
    }
}

/// In any window of seven consecutive bag draws that starts at a bag
/// boundary (the bag is empty, about to refill), each of the seven kinds is
/// drawn exactly once.
pub proof fn lemma_bag_window_fairness(bags: Seq<Seq<PieceId>>, draws: Seq<PieceId>)
    requires
        bags.len() == 8,
        draws.len() == 7,
        bags[0].len() == 0,
        forall|i: int| 0 <= i < 7 ==> draw_step(bags[i], #[trigger] draws[i], bags[i + 1]),
    ensures
        forall|k: PieceId| draws.to_multiset().count(k) == 1,
{
    lemma_bag_run(bags, draws, 7);
    assert(bags[7].to_multiset().len() == 0) by {
        bags[7].to_multiset_ensures();
    }
    assert(bags[7].to_multiset() =~= Multiset::<PieceId>::empty()) by {
        broadcast use vstd::multiset::group_multiset_axioms;

    }
    assert(draws.take(7) =~= draws);
    assert forall|k: PieceId| draws.to_multiset().count(k) == 1 by {
        broadcast use vstd::multiset::group_multiset_axioms;

        lemma_all_kinds_count(k);
        assert(draws.to_multiset().count(k) == bags[7].to_multiset().add(
            draws.take(7).to_multiset(),
        ).count(k));
    }
}

/// After `n` draws from a window that began at a bag boundary, the bag holds
/// `7 - n` pieces, and bag plus drawn pieces together still form one of each
/// kind.
proof fn lemma_bag_run(bags: Seq<Seq<PieceId>>, draws: Seq<PieceId>, n: int)
    requires
        bags.len() == 8,
        draws.len() == 7,
        bags[0].len() == 0,
        1 <= n <= 7,
        forall|i: int| 0 <= i < 7 ==> draw_step(bags[i], #[trigger] draws[i], bags[i + 1]),
    ensures
        bags[n].len() == 7 - n,
        bags[n].to_multiset().add(draws.take(n).to_multiset()) == all_kinds().to_multiset(),
    decreases n,
{
    broadcast use vstd::multiset::group_multiset_axioms;

    if n == 1 {
        let src = draw_src(bags[0]);
        assert(src == all_kinds());
        let i = choose|i: int|
            0 <= i < src.len() && draws[0] == src[i] && bags[1] == src.remove(i);
        vstd::seq_lib::to_multiset_remove(src, i);
        src.to_multiset_ensures();
        assert(draws.take(1) =~= seq![draws[0]]);
        lemma_singleton_multiset(draws[0]);
        assert(bags[1].to_multiset().add(draws.take(1).to_multiset()) =~= all_kinds()
            .to_multiset());
    } else {
        lemma_bag_run(bags, draws, n - 1);
        let src = draw_src(bags[n - 1]);
        assert(bags[n - 1].len() == 7 - (n - 1) > 0);
        assert(src == bags[n - 1]);
        let i = choose|i: int|
            0 <= i < src.len() && draws[n - 1] == src[i] && bags[n] == src.remove(i);
        vstd::seq_lib::to_multiset_remove(src, i);
        src.to_multiset_ensures();
        bags[n].to_multiset_ensures();
        assert(draws.take(n).drop_last() =~= draws.take(n - 1));
        assert(draws.take(n).last() == draws[n - 1]);
        assert(draws.take(n) =~= draws.take(n - 1).push(draws[n - 1]));
        vstd::seq_lib::to_multiset_build(draws.take(n - 1), draws[n - 1]);
        assert(bags[n].to_multiset().add(draws.take(n).to_multiset()) =~= all_kinds()
            .to_multiset());
    }
}

/// The multiset of a one-element sequence.
proof fn lemma_singleton_multiset(d: PieceId)
    ensures
        seq![d].to_multiset() == Multiset::<PieceId>::empty().insert(d),
{
    broadcast use vstd::multiset::group_multiset_axioms;

    assert(seq![d] =~= Seq::<PieceId>::empty().push(d));
    vstd::seq_lib::to_multiset_build(Seq::<PieceId>::empty(), d);
    Seq::<PieceId>::empty().to_multiset_ensures();
    assert(Seq::<PieceId>::empty().to_multiset() =~= Multiset::<PieceId>::empty());
}

/// One full bag holds each kind exactly once.
proof fn lemma_all_kinds_count(k: PieceId)
    ensures
        all_kinds().to_multiset().count(k) == 1,
{
    broadcast use vstd::multiset::group_multiset_axioms;

    let e = Seq::<PieceId>::empty();
    let s1 = e.push(PieceId::IBlock);
    let s2 = s1.push(PieceId::JBlock);
    let s3 = s2.push(PieceId::LBlock);
    let s4 = s3.push(PieceId::OBlock);
    let s5 = s4.push(PieceId::SBlock);
    let s6 = s5.push(PieceId::TBlock);
    let s7 = s6.push(PieceId::ZBlock);
    assert(all_kinds() =~= s7);
    e.to_multiset_ensures();
    assert(e.to_multiset() =~= Multiset::<PieceId>::empty());
    vstd::seq_lib::to_multiset_build(e, PieceId::IBlock);
    vstd::seq_lib::to_multiset_build(s1, PieceId::JBlock);
    vstd::seq_lib::to_multiset_build(s2, PieceId::LBlock);
    vstd::seq_lib::to_multiset_build(s3, PieceId::OBlock);
    vstd::seq_lib::to_multiset_build(s4, PieceId::SBlock);
    vstd::seq_lib::to_multiset_build(s5, PieceId::TBlock);
    vstd::seq_lib::to_multiset_build(s6, PieceId::ZBlock);
}

} // verus!
