use vstd::prelude::*;
use vstd::pervasive::VecAdditionalExecFns;
use crate::record::{views_of, Record, Template};
use crate::rng::{pcg_draw, SeededRng};

verus! {

pub open spec fn min_spec(a: int, b: int) -> int {
    if a < b {
        a
    } else {
        b
    }
}

/// Mathematical state of the reservoir sampler: the capacity `N`, the
/// count `seen` of templates offered so far (never capped), the slots as
/// the record sequences they hold, and the draw source as its seed and
/// the bounds drawn so far.
#[verifier::ext_equal]
pub struct SamplerModel<P> {
    pub capacity: int,
    pub seen: int,
    pub slots: Seq<Seq<Record<P>>>,
    pub seed: u64,
    pub history: Seq<u64>,
}

impl<P> SamplerModel<P> {
    /// The reservoir always holds exactly `min(seen, capacity)` templates.
    pub open spec fn wf(&self) -> bool {
        &&& self.capacity >= 0
        &&& self.seen >= 0
        &&& self.slots.len() == min_spec(self.seen, self.capacity)
    }
}

/// A fresh sampler: nothing seen, no slot filled, no draw made.
pub open spec fn init_state<P>(capacity: int, seed: u64) -> SamplerModel<P> {
    SamplerModel {
        capacity: capacity,
        seen: 0,
        slots: Seq::empty(),
        seed: seed,
        history: Seq::empty(),
    }
}

/// The decision made for one arriving template, with `k = s.seen` the
/// count of templates seen before it. While the reservoir is still
/// filling (`k < N`) the template takes slot `k`. Once it is full, a
/// candidate index is drawn uniformly below `k + 1` — the count with the
/// arriving template included, the canonical Algorithm R choice, taken
/// deliberately so that every template of the stream is retained with
/// equal probability — and the template replaces that slot if the index
/// lands below `N`, else it is dropped. With `N = 0` no draw is made at
/// all: the template is counted and dropped. `seen` always grows by one.
pub open spec fn observe_spec<P>(s: SamplerModel<P>, t: Seq<Record<P>>) -> SamplerModel<P> {
    if s.seen < s.capacity {
        SamplerModel {
            capacity: s.capacity,
            seen: s.seen + 1,
            slots: s.slots.push(t),
            seed: s.seed,
            history: s.history,
        }
    } else if s.capacity == 0 {
        SamplerModel {
            capacity: s.capacity,
            seen: s.seen + 1,
            slots: s.slots,
            seed: s.seed,
            history: s.history,
        }
    } else {
        let bound = (s.seen + 1) as u64;
        let i = pcg_draw(s.seed, s.history, bound) as int;
        if i < s.capacity {
            SamplerModel {
                capacity: s.capacity,
                seen: s.seen + 1,
                slots: s.slots.update(i, t),
                seed: s.seed,
                history: s.history.push(bound),
            }
        } else {
            SamplerModel {
                capacity: s.capacity,
                seen: s.seen + 1,
                slots: s.slots,
                seed: s.seed,
                history: s.history.push(bound),
            }
        }
    }
}

/// The sampler state after a whole template sequence has been offered,
/// first template first.
pub open spec fn run_spec<P>(s: SamplerModel<P>, ts: Seq<Seq<Record<P>>>) -> SamplerModel<P>
    decreases ts.len(),
{
    if ts.len() == 0 {
        s
    } else {
        run_spec(observe_spec(s, ts.first()), ts.drop_first())
    }
}

/// Single-pass reservoir sampler over templates: a fixed-capacity slot
/// vector, the count of templates seen, and the seeded draw source. Its
/// whole behaviour is `observe_spec` folded over the stream.
pub struct Sampler<P> {
    capacity: usize,
    seen: u64,
    slots: Vec<Template<P>>,
    rng: SeededRng,
}

impl<P> View for Sampler<P> {
    type V = SamplerModel<P>;

    closed spec fn view(&self) -> SamplerModel<P> {
        SamplerModel {
            capacity: self.capacity as int,
            seen: self.seen as int,
            slots: views_of(self.slots@),
            seed: self.rng.seed_spec(),
            history: self.rng.history_spec(),
        }
    }
}

impl<P> Sampler<P> {
    pub open spec fn wf(&self) -> bool {
        self@.wf()
    }

    pub fn new(capacity: usize, seed: u64) -> (s: Sampler<P>)
        ensures
            s@ == init_state::<P>(capacity as int, seed),
            s.wf(),
    {
        let s = Sampler {
            capacity,
            seen: 0,
            slots: Vec::new(),
            rng: SeededRng::from_seed(seed),
        };
        proof {
            assert(s@ =~= init_state::<P>(capacity as int, seed));
        }
        s
    }

    /// Offer one template to the reservoir: exactly the two-branch
    /// decision of `observe_spec`, made on the real slot vector.
    pub fn observe(&mut self, t: Template<P>)
        requires
            old(self).wf(),
            old(self)@.seen < u64::MAX,
        ensures
            final(self).wf(),
            final(self)@ == observe_spec(old(self)@, t@),
    {
        let ghost prev = self@;
        let ghost tv = t@;
        if self.seen < self.capacity as u64 {
            self.slots.push(t);
            self.seen = self.seen + 1;
            proof {
                assert(self@.slots =~= prev.slots.push(tv));
                assert(self@ =~= observe_spec(prev, tv));
            }
        } else if self.capacity > 0 {
            let bound: u64 = self.seen + 1;
            let i: u64 = self.rng.next_below(bound);
            if i < self.capacity as u64 {
                let idx: usize = i as usize;
                self.slots.set(idx, t);
                self.seen = self.seen + 1;
                proof {
                    assert(self@.slots =~= prev.slots.update(i as int, tv));
                    assert(self@ =~= observe_spec(prev, tv));
                }
            } else {
                self.seen = self.seen + 1;
                proof {
                    assert(self@ =~= observe_spec(prev, tv));
                }
            }
        } else {
            self.seen = self.seen + 1;
            proof {
                assert(self@ =~= observe_spec(prev, tv));
            }
        }
    }

    /// After stream exhaustion: hand the final slot contents out, in
    /// slot order. Templates of different keys may stand in another
    /// relative order than in the input: a slot overwrite is in place.
    pub fn finalize(self) -> (out: Vec<Template<P>>)
        ensures
            views_of(out@) == self@.slots,
    {
        self.slots
    }

    /// The count of templates offered so far.
    pub fn templates_seen(&self) -> (k: u64)
        ensures
            k == self@.seen,
    {
        self.seen
    }

    /// The fixed capacity the sampler was built with.
    pub fn capacity(&self) -> (n: usize)
        ensures
            n == self@.capacity,
    {
        self.capacity
    }
}

/// Offering one more template after a run is one more decision on the
/// run's final state.
pub proof fn lemma_run_snoc<P>(s: SamplerModel<P>, ts: Seq<Seq<Record<P>>>, t: Seq<Record<P>>)
    ensures
        run_spec(s, ts.push(t)) == observe_spec(run_spec(s, ts), t),
    decreases ts.len(),
{
    if ts.len() == 0 {
        assert(ts.push(t).first() == t);
        assert(ts.push(t).drop_first() =~= Seq::<Seq<Record<P>>>::empty());
        assert(run_spec(s, ts.push(t)) == run_spec(
            observe_spec(s, t),
            ts.push(t).drop_first(),
        ));
        assert(run_spec(observe_spec(s, t), ts.push(t).drop_first()) == observe_spec(s, t));
        assert(run_spec(s, ts) == s);
    } else {
        lemma_run_snoc(observe_spec(s, ts.first()), ts.drop_first(), t);
        assert(ts.push(t).first() == ts.first());
        assert(ts.push(t).drop_first() =~= ts.drop_first().push(t));
        assert(run_spec(s, ts.push(t)) == run_spec(
            observe_spec(s, ts.first()),
            ts.drop_first().push(t),
        ));
        assert(run_spec(s, ts) == run_spec(observe_spec(s, ts.first()), ts.drop_first()));
    }
}

/// A run preserves well-formedness; it adds the number of templates
/// offered to `seen` and never touches capacity or seed.
pub proof fn lemma_run_wf<P>(s: SamplerModel<P>, ts: Seq<Seq<Record<P>>>)
    requires
        s.wf(),
    ensures
        run_spec(s, ts).wf(),
        run_spec(s, ts).seen == s.seen + ts.len(),
        run_spec(s, ts).capacity == s.capacity,
        run_spec(s, ts).seed == s.seed,
    decreases ts.len(),
{
    if ts.len() != 0 {
        lemma_run_wf(observe_spec(s, ts.first()), ts.drop_first());
    }
}

/// Law: for every capacity `N >= 0`, seed, and input of `K` templates,
/// the final reservoir holds exactly `min(N, K)` templates.
pub proof fn lemma_sample_size<P>(capacity: int, seed: u64, ts: Seq<Seq<Record<P>>>)
    requires
        capacity >= 0,
    ensures
        run_spec(init_state::<P>(capacity, seed), ts).slots.len() == min_spec(
            capacity,
            ts.len() as int,
        ),
{
    lemma_run_wf(init_state::<P>(capacity, seed), ts);
}

/// Law: with capacity zero the reservoir stays empty, whatever arrives.
pub proof fn lemma_capacity_zero_empty<P>(seed: u64, ts: Seq<Seq<Record<P>>>)
    ensures
        run_spec(init_state::<P>(0, seed), ts).slots == Seq::<Seq<Record<P>>>::empty(),
{
    lemma_sample_size::<P>(0, seed, ts);
    assert(run_spec(init_state::<P>(0, seed), ts).slots =~= Seq::<Seq<Record<P>>>::empty());
}

/// While the capacity covers everything offered, each template is
/// appended to the slots in arrival order and none is dropped.
pub proof fn lemma_filling_appends<P>(s: SamplerModel<P>, ts: Seq<Seq<Record<P>>>)
    requires
        s.wf(),
        s.seen <= s.capacity,
        s.seen + ts.len() <= s.capacity,
    ensures
        run_spec(s, ts).slots == s.slots + ts,
    decreases ts.len(),
{
    if ts.len() == 0 {
        assert(s.slots + ts =~= s.slots);
    } else {
        lemma_filling_appends(observe_spec(s, ts.first()), ts.drop_first());
        assert(s.slots.push(ts.first()) + ts.drop_first() =~= s.slots + ts);
    }
}

/// Law: when the capacity is at least the whole input's template count,
/// the final reservoir is the full input — here even in arrival order,
/// which is stronger than equality as sets.
pub proof fn lemma_full_retention<P>(capacity: int, seed: u64, ts: Seq<Seq<Record<P>>>)
    requires
        capacity >= ts.len(),
    ensures
        run_spec(init_state::<P>(capacity, seed), ts).slots == ts,
{
    lemma_filling_appends(init_state::<P>(capacity, seed), ts);
    assert(Seq::<Seq<Record<P>>>::empty() + ts =~= ts);
}

/// Law: determinism. The final state of a run is a function of the
/// capacity, the seed and the input sequence alone — and the sampler's
/// contracts pin every execution to `run_spec` — so two runs over the
/// same seed and the same input end with identical reservoirs, slot for
/// slot.
pub proof fn lemma_deterministic<P>(
    capacity: int,
    seed: u64,
    ts: Seq<Seq<Record<P>>>,
    a: SamplerModel<P>,
    b: SamplerModel<P>,
)
    requires
        a == run_spec(init_state::<P>(capacity, seed), ts),
        b == run_spec(init_state::<P>(capacity, seed), ts),
    ensures
        a == b,
        a.slots == b.slots,
{
}

} // verus!
