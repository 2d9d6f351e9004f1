//! The seeded generator of a player's pairs.  Its fields are private to
//! this module, so the record of the seed a generator was made from is
//! written only by the calls that seed it.
use vstd::prelude::*;
use core::marker::PhantomData;
use rand::rngs::StdRng;

verus! {

/// The generator that deals the pairs of the player marked by `T`.
pub struct NextRngResource<T> {
    rng: StdRng,
    seed_record: Ghost<Option<u64>>,
    drawn_record: Ghost<Seq<u32>>,
    phantom: PhantomData<T>,
}

impl<T> NextRngResource<T> {
    /// The seed the generator was made from: `None` for the all-zero seed a
    /// field starts with, `Some(s)` after a reset with the seed `s`.
    pub closed spec fn seed(&self) -> Option<u64> {
        self.seed_record@
    }

    /// The numbers drawn from the generator since it was seeded, in order.
    pub closed spec fn drawn(&self) -> Seq<u32> {
        self.drawn_record@
    }
}

/// The standard generator of `rand`; its state is not visible here.
#[verifier::external_type_specification]
#[verifier::external_body]
pub struct ExStdRng(rand::rngs::StdRng);

/// Next number of the seeded generator of `res` (`Rng::gen::<u32>` on
/// `StdRng`, which is `RngCore::next_u32`).  The number depends on the
/// generator's state, which is not visible here; the number is recorded
/// as the next one drawn, and the seed record stays.
#[verifier::external_body]
pub(crate) fn draw_u32<T>(res: &mut NextRngResource<T>) -> (r: u32)
    ensures
        final(res).seed() == old(res).seed(),
        final(res).drawn() == old(res).drawn().push(r),
{
    let r = rand::Rng::gen::<u32>(&mut res.rng);
    res.drawn_record = Ghost(res.drawn_record@.push(r));
    r
}

/// `SeedableRng::seed_from_u64` on `StdRng`: installs in `res` a generator
/// seeded from `seed` and records that seed.  The generator's state is
/// opaque here; the record, which only this call writes, is all that is
/// stated of it.
#[verifier::external_body]
pub(crate) fn std_rng_reseed<T>(res: &mut NextRngResource<T>, seed: u64)
    ensures
        final(res).seed() == Some(seed),
        final(res).drawn() == Seq::<u32>::empty(),
{
    res.rng = <StdRng as rand::SeedableRng>::seed_from_u64(seed);
    res.seed_record = Ghost(Some(seed));
    res.drawn_record = Ghost(Seq::empty());
}

/// `SeedableRng::from_seed` on `StdRng` with the all-zero seed: a resource
/// holding that generator, recorded as seeded with the all-zero seed
/// (`None`).  The generator's state is opaque here.
#[verifier::external_body]
pub(crate) fn std_rng_zero_resource<T>() -> (r: NextRngResource<T>)
    ensures
        r.seed() is None,
        r.drawn() == Seq::<u32>::empty(),
{
    NextRngResource {
        rng: <StdRng as rand::SeedableRng>::from_seed([0u8; 32]),
        seed_record: Ghost(None),
        drawn_record: Ghost(Seq::empty()),
        phantom: PhantomData,
    }
}

} // verus!
