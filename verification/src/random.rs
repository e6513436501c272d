//! A random source backed by the standard generator of the `rand` crate.
use vstd::prelude::*;
use crate::RandomSource;
use rand::rngs::StdRng;
use rand::Rng;

verus! {

#[verifier::external_type_specification]
#[verifier::external_body]
pub struct ExStdRng(StdRng);

/// `rand::Rng::gen_range` on a `StdRng`, with the half-open range
/// `low..high`. The call panics on an empty range, which `requires` leaves
/// out. The sampler multiplies a fresh word by `high - low`, keeps the high
/// half of the product and adds it to `low`, so the index lies in the range.
/// It draws again while the low half of the product falls in a rejected
/// zone, which fewer than half of all words do. Which index comes back is
/// not stated: it depends on the generator's state.
#[verifier::external_body]
fn draw_in_range(generator: &mut StdRng, low: usize, high: usize) -> (index: usize)
    requires
        low < high,
    ensures
        low <= index < high,
{
    generator.gen_range(low..high)
}

/// A [`RandomSource`] that draws from a `StdRng`.
pub struct StdSource {
    generator: StdRng,
}

impl StdSource {
    /// The generator that the indices are drawn from.
    pub closed spec fn generator(&self) -> StdRng {
        self.generator
    }

    /// A source that draws from `generator`, seeded as the caller saw fit.
    pub fn new(generator: StdRng) -> (source: Self)
        ensures
            source.generator() == generator,
    {
        StdSource { generator }
    }
}

impl RandomSource for StdSource {
    fn sample_uniform(&mut self, low: usize, high: usize) -> (index: usize) {
        draw_in_range(&mut self.generator, low, high)
    }
}

} // verus!
