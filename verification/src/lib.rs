//! Small grid environments for reinforcement-learning experiments.
//!
//! Every environment offers the same four operations, gathered in [`Env`]:
//! `check`, `reset`, `step` and `observe`. Observations are written into a
//! buffer that the caller owns; nothing is allocated while an episode runs.
use vstd::prelude::*;

pub mod find_point;
pub mod random;
pub mod snake;

verus! {

/// A source of uniformly drawn indices, handed to an environment when it is
/// built and consumed by `reset`.
pub trait RandomSource {
    /// Draws an index from the half-open range `low..high`.
    fn sample_uniform(&mut self, low: usize, high: usize) -> (index: usize)
        requires
            low < high,
        ensures
            low <= index < high,
    ;
}

/// The interface shared by all environments. `Obs` is the buffer that
/// `observe` fills.
pub trait Env<Obs> {
    type Action;

    type Reward;

    /// The configured size agrees with the shape of `Obs`.
    spec fn fits(&self) -> bool;

    /// A new episode can be drawn from this state.
    spec fn can_reset(&self) -> bool;

    /// An action can be applied to this state.
    spec fn can_step(&self) -> bool;

    /// This state can be written into an `Obs`.
    spec fn can_observe(&self) -> bool;

    /// `next` is a state in which `reset` may leave this environment.
    spec fn resets_to(&self, next: &Self) -> bool;

    /// `action` leads from this state to `next` and is answered by `outcome`.
    spec fn steps_to(&self, action: &Self::Action, next: &Self, outcome: (bool, Self::Reward)) -> bool;

    /// `obs` holds the picture of this state.
    spec fn shows(&self, obs: &Obs) -> bool;

    /// Returns false when the environment is not set up for `Obs`.
    fn check(&self) -> (ok: bool)
        ensures
            ok == self.fits(),
    ;

    /// Discards the current episode and draws a new one.
    fn reset(&mut self)
        requires
            old(self).can_reset(),
        ensures
            old(self).resets_to(final(self)),
            final(self).can_step(),
            old(self).fits() ==> final(self).fits(),
            old(self).fits() ==> final(self).can_observe(),
    ;

    /// Applies one action and returns `(done, reward)`. The state stays one
    /// that can be stepped and observed, also after a final move.
    fn step(&mut self, action: &Self::Action) -> (outcome: (bool, Self::Reward))
        requires
            old(self).can_step(),
        ensures
            old(self).steps_to(action, final(self), outcome),
            final(self).can_step(),
            final(self).fits() == old(self).fits(),
            old(self).can_observe() ==> final(self).can_observe(),
    ;

    /// Writes the current state into `obs`, without changing the state.
    fn observe(&self, obs: &mut Obs)
        requires
            self.can_observe(),
        ensures
            self.shows(final(obs)),
    ;
}

} // verus!
