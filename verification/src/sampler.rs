//! The source of random points.

use crate::point::Point;
use rand::rngs::StdRng;
use rand::{Rng, SeedableRng};
use vstd::prelude::*;

verus! {

/// `rand::rngs::StdRng`, a pseudo-random generator that carries its whole
/// state in the value itself. That state is hidden from the verifier.
#[verifier::external_type_specification]
#[verifier::external_body]
pub struct ExStdRng(StdRng);

/// `rand::SeedableRng::from_entropy` at `rand::rngs::StdRng` builds a new
/// generator from a seed that it asks of the operating system. Nothing is
/// claimed of the generator. Should the operating system fail to supply the
/// seed, `rand` panics and the failure is fatal.
#[verifier::external_body]
fn fresh_generator() -> (rng: StdRng) {
    StdRng::from_entropy()
}

/// `rand::Rng::gen` at type `u64` yields the generator's next 64-bit word and
/// advances the generator. The word is random, so nothing is claimed of its
/// value.
#[verifier::external_body]
fn next_word(rng: &mut StdRng) -> (word: u64) {
    rng.gen()
}

/// An endless source of independent points, uniformly distributed over the
/// unit square. It can only move forward: nothing resets or replays it.
///
/// Each generator owns its random state, seeded when the generator is made
/// and dropped with it. Drawing from one generator leaves every other
/// untouched.
pub struct PointGenerator {
    rng: StdRng,
    drawn: Ghost<Seq<Point>>,
}

impl View for PointGenerator {
    type V = Seq<Point>;

    /// The history of the points produced so far, oldest first. The random
    /// state itself is opaque and has no part in the view: what it will yield
    /// next is left to chance.
    closed spec fn view(&self) -> Seq<Point> {
        self.drawn@
    }
}

impl PointGenerator {
    /// A generator with a freshly seeded random state of its own, which has
    /// produced no point yet.
    pub fn new() -> (pg: PointGenerator)
        ensures
            pg@ == Seq::<Point>::empty(),
    {
        PointGenerator { rng: fresh_generator(), drawn: Ghost(Seq::empty()) }
    }

    /// Draws the next point: two fresh 64-bit words, the first for `x` and the
    /// second for `y`, each cut down to its 53 most significant bits. The
    /// point lies in the unit square and is appended to the history.
    pub fn gen(&mut self) -> (p: Point)
        ensures
            p.in_unit_square(),
            final(self)@ == old(self)@.push(p),
    {
        let wx: u64 = next_word(&mut self.rng);
        let wy: u64 = next_word(&mut self.rng);
        let p = Point::from_words(wx, wy);
        proof {
            self.drawn@ = self.drawn@.push(p);
        }
        p
    }
}

} // verus!
