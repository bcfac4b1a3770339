use vstd::prelude::*;

verus! {

/// Intensity of a freshly deposited pheromone, in tenths.
pub const FULL_POW: i32 = 10;

/// A scent marker at a position, with its remaining intensity in tenths.
#[derive(Clone, Copy)]
pub struct Pheromone<P> {
    pub pos: P,
    pub pow: i32,
}

/// The pheromone one tick older: one tenth weaker, at the same place.
pub open spec fn decayed<P>(p: Pheromone<P>) -> Pheromone<P> {
    Pheromone { pos: p.pos, pow: (p.pow - 1) as i32 }
}

/// A pheromone that still has some intensity left.
pub open spec fn is_alive<P>(p: Pheromone<P>) -> bool {
    p.pow > 0
}

/// What a set of pheromones becomes after one tick of aging: each one decays,
/// and those that have no intensity left are dropped, in order.
pub open spec fn aged<P>(s: Seq<Pheromone<P>>) -> Seq<Pheromone<P>> {
    alive_only(decay_all(s))
}

/// The pheromones of `s` that still have intensity, in order.
pub open spec fn alive_only<P>(s: Seq<Pheromone<P>>) -> Seq<Pheromone<P>> {
    s.filter(|p: Pheromone<P>| is_alive(p))
}

/// Every pheromone of `s` one tick older, none dropped.
pub open spec fn decay_all<P>(s: Seq<Pheromone<P>>) -> Seq<Pheromone<P>> {
    s.map_values(|p: Pheromone<P>| decayed(p))
}

/// Every pheromone can decay once more without leaving the range of `i32`.
pub open spec fn can_decay<P>(s: Seq<Pheromone<P>>) -> bool {
    forall|i: int| 0 <= i < s.len() ==> s[i].pow > i32::MIN
}

/// Every pheromone has some intensity left.
pub open spec fn all_alive<P>(s: Seq<Pheromone<P>>) -> bool {
    forall|i: int| 0 <= i < s.len() ==> is_alive(#[trigger] s[i])
}

/// Decays every pheromone of `chunk` by one tenth, in place.
pub fn decay_each<P: Copy>(chunk: &mut [Pheromone<P>])
    requires
        can_decay(old(chunk)@),
    ensures
        final(chunk)@ == decay_all(old(chunk)@),
{
    let ghost s = chunk@;
    let n = chunk.len();
    let mut i: usize = 0;
    while i < n
        invariant
            n == s.len(),
            chunk@.len() == n,
            can_decay(s),
            i <= n,
            forall|k: int| 0 <= k < i ==> #[trigger] chunk@[k] == decayed(s[k]),
            forall|k: int| i <= k < n ==> #[trigger] chunk@[k] == s[k],
        decreases n - i,
    {
        let p = chunk[i];
        chunk[i] = Pheromone { pos: p.pos, pow: p.pow - 1 };
        i = i + 1;
    }
    assert(chunk@ =~= decay_all(s));
}

impl<P> Pheromone<P> {
    /// A pheromone at `pos` with intensity `pow`.
    pub fn new(pos: P, pow: i32) -> (r: Pheromone<P>)
        ensures
            r.pos == pos,
            r.pow == pow,
    {
        Pheromone { pos, pow }
    }

    /// A pheromone at full intensity at `pos`.
    pub fn fresh(pos: P) -> (r: Pheromone<P>)
        ensures
            r.pos == pos,
            r.pow == FULL_POW,
    {
        Pheromone { pos, pow: FULL_POW }
    }

    /// One tick of decay: the intensity drops by one tenth.
    pub fn evolve(&mut self)
        requires
            old(self).pow > i32::MIN,
        ensures
            *final(self) == decayed(*old(self)),
            final(self).pow == old(self).pow - 1,
            final(self).pos == old(self).pos,
    {
        self.pow = self.pow - 1;
    }
}

} // verus!
