use rayon::slice::ParallelSliceMut;
use rayon::iter::ParallelIterator;
use vstd::prelude::*;

use crate::field::{
    FULL_POW, Pheromone, aged, alive_only, all_alive, can_decay, decay_all, decay_each, decayed,
    is_alive,
};

verus! {

/// A population of agents of type `A` and the pheromones they have left,
/// each at a position of type `P`.
pub struct World<A, P> {
    pub ants: Vec<A>,
    pub pheromones: Vec<Pheromone<P>>,
}

impl<A, P: Copy> World<A, P> {
    /// A world holding `ants` and no pheromone.
    pub fn new(ants: Vec<A>) -> (r: World<A, P>)
        ensures
            r.ants@ == ants@,
            r.pheromones@.len() == 0,
    {
        World { ants, pheromones: Vec::new() }
    }

    /// Decays every pheromone by one tenth and drops those left with no
    /// intensity, keeping the order of the others.
    pub fn age_pheromones(&mut self)
        requires
            can_decay(old(self).pheromones@),
        ensures
            final(self).pheromones@ == aged(old(self).pheromones@),
            final(self).ants@ == old(self).ants@,
            all_alive(final(self).pheromones@),
    {
        let ghost s = self.pheromones@;
        let mut kept: Vec<Pheromone<P>> = Vec::new();
        let n = self.pheromones.len();
        let mut i: usize = 0;
        while i < n
            invariant
                n == s.len(),
                self.pheromones@ == s,
                can_decay(s),
                i <= n,
                kept@ == aged(s.take(i as int)),
            decreases n - i,
        {
            let p = self.pheromones[i];
            let d = Pheromone { pos: p.pos, pow: p.pow - 1 };
            if d.pow > 0 {
                kept.push(d);
            }
            proof {
                reveal(Seq::filter);
                let m = decay_all(s.take(i as int + 1));
                assert(s.take(i as int + 1).drop_last() =~= s.take(i as int));
                assert(m.drop_last() =~= decay_all(s.take(i as int)));
                assert(m.last() == d);
                assert(aged(s.take(i as int + 1)) == if is_alive(d) {
                    aged(s.take(i as int)).push(d)
                } else {
                    aged(s.take(i as int))
                });
            }
            i = i + 1;
        }
        assert(s.take(n as int) =~= s);
        self.pheromones = kept;
        proof {
            lemma_aged_alive(s);
        }
    }

    /// Drops the pheromones left with no intensity, keeping the order of the
    /// others.
    pub fn prune(&mut self)
        ensures
            final(self).pheromones@ == alive_only(old(self).pheromones@),
            final(self).ants@ == old(self).ants@,
            all_alive(final(self).pheromones@),
    {
        let ghost s = self.pheromones@;
        let mut kept: Vec<Pheromone<P>> = Vec::new();
        let n = self.pheromones.len();
        let mut i: usize = 0;
        while i < n
            invariant
                n == s.len(),
                self.pheromones@ == s,
                i <= n,
                kept@ == alive_only(s.take(i as int)),
            decreases n - i,
        {
            let p = self.pheromones[i];
            if p.pow > 0 {
                kept.push(p);
            }
            proof {
                reveal(Seq::filter);
                assert(s.take(i as int + 1).drop_last() =~= s.take(i as int));
            }
            i = i + 1;
        }
        assert(s.take(n as int) =~= s);
        self.pheromones = kept;
        proof {
            lemma_alive_only_alive(s);
        }
    }

    /// Leaves a pheromone at full intensity at `pos`, after all the others.
    pub fn deposit(&mut self, pos: P)
        ensures
            final(self).pheromones@ == old(self).pheromones@.push(Pheromone { pos, pow: FULL_POW }),
            final(self).ants@ == old(self).ants@,
    {
        self.pheromones.push(Pheromone::fresh(pos));
    }

    /// Advances the world by one tick. The pheromones age first. Then each ant
    /// in turn leaves a fresh pheromone where `pos_of` says it stands, and is
    /// replaced by what `step` makes of it given the pheromones as they are at
    /// that moment, its own new one and those of the ants before it included.
    pub fn evolve<F, G>(&mut self, pos_of: F, step: G)
        where
            F: Fn(&A) -> P,
            G: Fn(&A, &[Pheromone<P>]) -> A,
        requires
            can_decay(old(self).pheromones@),
            forall|a: &A| #[trigger] pos_of.requires((a,)),
            forall|a: &A, f: &[Pheromone<P>]| #[trigger] step.requires((a, f)),
        ensures
            final(self).ants.len() == old(self).ants.len(),
            final(self).pheromones.len() == aged(old(self).pheromones@).len() + old(self).ants.len(),
            final(self).pheromones@.take(aged(old(self).pheromones@).len() as int)
                == aged(old(self).pheromones@),
            forall|i: int|
                0 <= i < old(self).ants.len() ==> {
                    let d = #[trigger] final(self).pheromones@[aged(old(self).pheromones@).len() + i];
                    &&& d.pow == FULL_POW
                    &&& pos_of.ensures((&old(self).ants@[i],), d.pos)
                },
            forall|i: int|
                0 <= i < old(self).ants.len() ==> stepped(
                    step,
                    old(self).ants@[i],
                    final(self).pheromones@.take(aged(old(self).pheromones@).len() + i + 1),
                    #[trigger] final(self).ants@[i],
                ),
            all_alive(final(self).pheromones@),
    {
        self.age_pheromones();
        let ghost base = self.pheromones@;
        let ghost ants0 = self.ants@;
        let n = self.ants.len();
        let mut i: usize = 0;
        while i < n
            invariant
                n == ants0.len(),
                self.ants@.len() == n,
                i <= n,
                base == aged(old(self).pheromones@),
                ants0 == old(self).ants@,
                all_alive(self.pheromones@),
                self.pheromones@.len() == base.len() + i,
                self.pheromones@.take(base.len() as int) == base,
                forall|k: int| i <= k < n ==> self.ants@[k] == ants0[k],
                forall|k: int|
                    0 <= k < i ==> {
                        let d = #[trigger] self.pheromones@[base.len() + k];
                        &&& d.pow == FULL_POW
                        &&& pos_of.ensures((&ants0[k],), d.pos)
                    },
                forall|k: int|
                    0 <= k < i ==> stepped(
                        step,
                        ants0[k],
                        self.pheromones@.take(base.len() + k + 1),
                        #[trigger] self.ants@[k],
                    ),
                forall|a: &A| #[trigger] pos_of.requires((a,)),
                forall|a: &A, f: &[Pheromone<P>]| #[trigger] step.requires((a, f)),
            decreases n - i,
        {
            let ghost before = self.pheromones@;
            let pos = pos_of(&self.ants[i]);
            self.deposit(pos);
            let field = self.pheromones.as_slice();
            let moved = step(&self.ants[i], field);
            proof {
                assert(field@ == self.pheromones@.take(base.len() + i + 1));
                assert(stepped(step, ants0[i as int], self.pheromones@.take(base.len() + i + 1), moved));
            }
            self.ants[i] = moved;
            proof {
                assert(self.pheromones@.take(base.len() as int) =~= before.take(base.len() as int));
                assert forall|k: int| 0 <= k < i + 1 implies stepped(
                    step,
                    ants0[k],
                    self.pheromones@.take(base.len() + k + 1),
                    #[trigger] self.ants@[k],
                ) by {
                    if k < i {
                        assert(before.take(base.len() + k + 1) =~= self.pheromones@.take(base.len() + k + 1));
                    }
                }
            }
            i = i + 1;
        }
        proof {
            assert(self.pheromones@ =~= base + self.pheromones@.subrange(base.len() as int, self.pheromones@.len() as int));
        }
    }
}

/// Relies on rayon's `par_chunks_mut` and `for_each`: the slice is cut into
/// chunks of `chunk` items (the last may be shorter) that do not overlap and
/// cover it, and each chunk is handed once to the closure, here a verified
/// in-place decay. `par_chunks_mut` panics on a chunk size of zero.
#[verifier::external_body]
fn decay_in_chunks<P: Copy + Send>(v: &mut Vec<Pheromone<P>>, chunk: usize)
    requires
        chunk > 0,
        can_decay(old(v)@),
    ensures
        final(v)@ == decay_all(old(v)@),
{
    v.as_mut_slice().par_chunks_mut(chunk).for_each(|c| decay_each(c));
}

impl<A, P: Copy + Send> World<A, P> {
    /// Ages the pheromones as `age_pheromones` does, with the decay spread
    /// over `threads` workers, each taking a contiguous chunk.
    pub fn age_pheromones_parallel(&mut self, threads: usize)
        requires
            threads > 0,
            can_decay(old(self).pheromones@),
        ensures
            final(self).pheromones@ == aged(old(self).pheromones@),
            final(self).ants@ == old(self).ants@,
            all_alive(final(self).pheromones@),
    {
        let per_thread = chunk_len(self.pheromones.len(), threads);
        decay_in_chunks(&mut self.pheromones, per_thread);
        self.prune();
    }
}

/// `r` is what `step` returned for the ant `a` on a slice of pheromones
/// that held `seen`.
pub open spec fn stepped<A, P, G: Fn(&A, &[Pheromone<P>]) -> A>(
    step: G,
    a: A,
    seen: Seq<Pheromone<P>>,
    r: A,
) -> bool {
    exists|f: &[Pheromone<P>]| f@ == seen && #[trigger] step.ensures((&a, f), r)
}

/// The number of pieces of at most `len / threads` items, and at least one,
/// that a collection of `len` items is cut into for `threads` workers.
pub fn chunk_len(len: usize, threads: usize) -> (r: usize)
    requires
        threads > 0,
    ensures
        r == if len / threads == 0 { 1 } else { len / threads },
        r >= 1,
{
    let per = len / threads;
    if per == 0 {
        1
    } else {
        per
    }
}

/// Nothing is left without intensity by dropping those without it.
pub proof fn lemma_alive_only_alive<P>(s: Seq<Pheromone<P>>)
    ensures
        all_alive(alive_only(s)),
{
    assert forall|i: int| 0 <= i < alive_only(s).len() implies is_alive(#[trigger] alive_only(s)[i]) by {
        s.lemma_filter_pred(|p: Pheromone<P>| is_alive(p), i);
    }
}

/// Nothing that survives aging is left without intensity.
pub proof fn lemma_aged_alive<P>(s: Seq<Pheromone<P>>)
    ensures
        all_alive(aged(s)),
{
    lemma_alive_only_alive(decay_all(s));
}

/// When no pheromone is about to run out, aging drops none of them, so one
/// tick leaves as many pheromones as before plus one per ant.
pub proof fn lemma_no_aging_out<P>(s: Seq<Pheromone<P>>)
    requires
        forall|i: int| 0 <= i < s.len() ==> #[trigger] s[i].pow > 1,
    ensures
        aged(s).len() == s.len(),
    decreases s.len(),
{
    reveal(Seq::filter);
    if s.len() > 0 {
        lemma_no_aging_out(s.drop_last());
        assert(decay_all(s).drop_last() =~= decay_all(s.drop_last()));
    }
}

/// Aging keeps, one tenth weaker, every pheromone that still has intensity
/// after its decay, and drops every one that has none.
pub proof fn lemma_aging_keeps_live<P>(s: Seq<Pheromone<P>>, i: int)
    requires
        0 <= i < s.len(),
        s[i].pow > i32::MIN,
    ensures
        s[i].pow > 1 ==> aged(s).contains(decayed(s[i])),
        s[i].pow <= 1 ==> !aged(s).contains(decayed(s[i])),
{
    let m = decay_all(s);
    if s[i].pow > 1 {
        m.lemma_filter_contains(|p: Pheromone<P>| is_alive(p), i);
    } else {
        lemma_aged_alive(s);
        if aged(s).contains(decayed(s[i])) {
            let j = choose|j: int| 0 <= j < aged(s).len() && aged(s)[j] == decayed(s[i]);
            assert(is_alive(aged(s)[j]));
        }
    }
}

} // verus!
