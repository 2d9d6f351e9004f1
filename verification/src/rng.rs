//! Random numbers: the seeded generator that deals each player's pairs,
//! and the system's generator.  A reset gives both players' generators the
//! same seed; that equal seeds then deal equal pairs rests on the outside
//! generator and is not proved here.
use vstd::prelude::*;
use crate::generator::{draw_u32, std_rng_reseed, std_rng_zero_resource};
pub use crate::generator::NextRngResource;

verus! {

/// `thread_rng().gen::<u32>()`: a number from the system-seeded generator.
/// It is random, so nothing is stated of it.
#[verifier::external_body]
fn thread_random_u32() -> u32 {
    rand::Rng::gen::<u32>(&mut rand::thread_rng())
}

/// `thread_rng().gen::<u64>()`: a number from the system-seeded generator.
/// It is random, so nothing is stated of it.
#[verifier::external_body]
fn thread_random_u64() -> u64 {
    rand::Rng::gen::<u64>(&mut rand::thread_rng())
}

impl<T> NextRngResource<T> {
    /// A generator seeded with the all-zero seed, as a field starts with.
    /// The generator's state is opaque here; the contract speaks of the
    /// seed it was made from.
    pub fn new() -> (r: NextRngResource<T>)
        ensures
            r.seed() is None,
            r.drawn() == Seq::<u32>::empty(),
    {
        std_rng_zero_resource()
    }

    /// Seeds the generator anew from `seed`, as a reset of the game does.
    /// The generator's state is opaque here; the contract speaks of the
    /// seed it was made from.
    pub fn reseed(&mut self, seed: u64)
        ensures
            final(self).seed() == Some(seed),
            final(self).drawn() == Seq::<u32>::empty(),
    {
        std_rng_reseed(self, seed);
    }
}

/// The colour a generator number stands for: one of the first four colours.
pub open spec fn color_of(r: u32) -> i32 {
    (r % 4 + 1) as i32
}

/// The colours of a pair dealt from the two generator numbers `r0`, `r1`.
pub fn next_colors_from(r0: u32, r1: u32) -> (c: (i32, i32))
    ensures
        c == (color_of(r0), color_of(r1)),
        1 <= c.0 <= 4,
        1 <= c.1 <= 4,
{
    ((r0 % 4) as i32 + 1, (r1 % 4) as i32 + 1)
}

/// The pair `next` was dealt from the two numbers drawn after `before`:
/// the generator's record grew from `before` to `after` by those two
/// numbers, the primary colour from the first, the secondary from the
/// second.
pub open spec fn dealt(before: Seq<u32>, after: Seq<u32>, next: (i32, i32)) -> bool {
    &&& after.len() == before.len() + 2
    &&& after.subrange(0, before.len() as int) == before
    &&& next == (color_of(after[before.len() as int]), color_of(after[before.len() + 1int]))
}

/// Deals the colours of the next pair: two numbers from the player's
/// generator, each taken to one of the first four colours.
pub fn create_next<T>(rng: &mut NextRngResource<T>) -> (c: (i32, i32))
    ensures
        final(rng).seed() == old(rng).seed(),
        final(rng).drawn().len() == old(rng).drawn().len() + 2,
        final(rng).drawn().subrange(0, old(rng).drawn().len() as int) == old(rng).drawn(),
        c == (
            color_of(final(rng).drawn()[old(rng).drawn().len() as int]),
            color_of(final(rng).drawn()[old(rng).drawn().len() + 1int]),
        ),
        1 <= c.0 <= 4,
        1 <= c.1 <= 4,
{
    let r0 = draw_u32(rng);
    let r1 = draw_u32(rng);
    next_colors_from(r0, r1)
}

/// A fresh seed for a new game, from the system's generator.  Any `u64`
/// may come out, so no clause speaks of it.
pub fn reset_seed() -> u64 {
    thread_random_u64()
}

/// A number from the system's generator.  Any `u32` may come out, so no
/// clause speaks of it.
pub fn random_u32() -> u32 {
    thread_random_u32()
}

} // verus!
