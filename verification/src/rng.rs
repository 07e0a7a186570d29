use vstd::prelude::*;

use crate::valid_die;
use rand::Rng;
use rand::SeedableRng;

verus! {

/// Declares rand's `StdRng` so a generator can live in a field here; the
/// type stays opaque, and only the wrappers below say anything about it.
#[verifier::external_type_specification]
#[verifier::external_body]
pub struct ExStdRng(rand::rngs::StdRng);

/// A source of die rolls, backed by rand's standard generator.
///
/// Every roll is a face in `1..=6`; nothing else is assumed about the
/// sequence of rolls, so everything proved about the simulators holds for
/// every possible sequence of outcomes.
pub struct DiceRng {
    rng: rand::rngs::StdRng,
}

impl DiceRng {
    /// Relies on rand's `StdRng::seed_from_u64`: builds a generator
    /// determined by the given seed.
    #[verifier::external_body]
    pub fn seeded(seed: u64) -> DiceRng {
        DiceRng { rng: rand::rngs::StdRng::seed_from_u64(seed) }
    }

    /// Relies on rand's `StdRng::from_entropy`: builds a generator from
    /// fresh operating-system entropy.
    #[verifier::external_body]
    pub fn from_entropy() -> DiceRng {
        DiceRng { rng: rand::rngs::StdRng::from_entropy() }
    }

    /// Relies on rand's `Rng::gen_range`: a sample drawn from `1..=6` lies
    /// in that inclusive range (the draw is uniform; only the range is
    /// claimed here).
    #[verifier::external_body]
    pub fn roll(&mut self) -> (x: u8)
        ensures
            valid_die(x),
    {
        self.rng.gen_range(1..=6)
    }
}

/// Relies on rand's `thread_rng` and `Rng::gen_range`: a sample drawn from
/// `1..=6` lies in that inclusive range. `thread_rng` hands each thread its
/// own generator, so parallel trials draw independently.
#[verifier::external_body]
pub fn thread_roll() -> (x: u8)
    ensures
        valid_die(x),
{
    rand::thread_rng().gen_range(1..=6)
}

} // verus!
