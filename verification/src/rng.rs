use vstd::prelude::*;
use rand::Rng;
use rand::SeedableRng;

verus! {

// The value that `rand`'s uniform integer sampling hands back from a
// PCG-64 engine: a pure function of the seed the engine was built from,
// the bounds of the draws made before, and the bound of this draw. The
// engine's state after a draw is determined by the seed and the bounds
// drawn so far (rejection sampling consumes a bound-dependent number of
// engine steps), so the draw depends on nothing else: no time, machine
// or environment enters.
pub uninterp spec fn pcg_draw(seed: u64, history: Seq<u64>, bound: u64) -> u64;

#[verifier::external_type_specification]
#[verifier::external_body]
pub struct ExLcg128Xsl64(rand_pcg::Lcg128Xsl64);

/// Relies on `rand::SeedableRng::seed_from_u64` for `rand_pcg::Pcg64`:
/// it builds the engine's state from the seed alone, and changing how
/// it does so is documented as a value-breaking change.
#[verifier::external_body]
fn engine_from_seed(seed: u64) -> rand_pcg::Pcg64 {
    rand_pcg::Pcg64::seed_from_u64(seed)
}

/// A reproducible source of uniform draws: a PCG-64 engine built from an
/// explicit seed, together with the seed and the bounds drawn so far,
/// which pin every draw down as `pcg_draw` of them. Only `from_seed`
/// builds one, so the ghost seed and history always describe the
/// engine's real state.
pub struct SeededRng {
    engine: rand_pcg::Pcg64,
    seed: Ghost<u64>,
    history: Ghost<Seq<u64>>,
}

impl SeededRng {
    /// The seed the engine was built from.
    pub closed spec fn seed_spec(&self) -> u64 {
        self.seed@
    }

    /// The bounds of the draws made so far, oldest first.
    pub closed spec fn history_spec(&self) -> Seq<u64> {
        self.history@
    }

    pub fn from_seed(seed: u64) -> (r: SeededRng)
        ensures
            r.seed_spec() == seed,
            r.history_spec() == Seq::<u64>::empty(),
    {
        SeededRng {
            engine: engine_from_seed(seed),
            seed: Ghost(seed),
            history: Ghost(Seq::empty()),
        }
    }

    /// Relies on `rand::Rng::gen_range(0..bound)`: it returns a value of
    /// the given range, drawn uniformly, and panics only when the range
    /// is empty, which the precondition rules out. On a PCG-64 engine the
    /// value is a function of the seed and the bounds drawn before.
    #[verifier::external_body]
    pub fn next_below(&mut self, bound: u64) -> (i: u64)
        requires
            bound > 0,
        ensures
            final(self).seed_spec() == old(self).seed_spec(),
            final(self).history_spec() == old(self).history_spec().push(bound),
            i == pcg_draw(old(self).seed_spec(), old(self).history_spec(), bound),
            i < bound,
    {
        self.engine.gen_range(0..bound)
    }
}

} // verus!
