//! The source of noise: the thread-local generator of `rand`.

use vstd::prelude::*;
use rand::Rng;
use crate::stream::all_nibbles;

verus! {

/// The handle of `rand`'s thread-local generator. The library only passes it
/// on.
#[verifier::external_type_specification]
#[verifier::external_body]
pub struct ExThreadRng(rand::rngs::ThreadRng);

/// `rand::thread_rng` hands out the generator of the calling thread.
///
/// Trusted, and nothing is claimed of the handle. The first call on a thread
/// seeds the generator from the operating system.
pub assume_specification[ rand::thread_rng ]() -> (rng: rand::rngs::ThreadRng)
;

/// Draws one nibble with `Rng::gen_range`.
///
/// Trusted: the value lies in the range that is asked for, 0 to 15. Which
/// value it is depends on chance, so nothing more is said.
#[verifier::external_body]
fn random_nibble(rng: &mut rand::rngs::ThreadRng) -> (nibble: u8)
    ensures
        nibble < 16,
{
    rng.gen_range(0..=15)
}

/// Where the noise of a stream comes from.
pub enum NoiseSource<'a> {
    /// Nibbles that the caller chose. They are taken in order, `next` being
    /// the index of the one that is taken next.
    Given { nibbles: &'a [u8], next: usize },
    /// Nibbles drawn from the random generator of the thread.
    Random(rand::rngs::ThreadRng),
}

impl<'a> NoiseSource<'a> {
    /// Whether the source can hand out `count` more nibbles.
    pub open spec fn can_draw(self, count: int) -> bool {
        self matches NoiseSource::Given { nibbles, next } ==> {
            &&& next + count <= nibbles.len()
            &&& all_nibbles(nibbles@)
        }
    }

    /// Whether the source is `start` after `drawn` nibbles were taken from it.
    pub open spec fn is_after(self, start: NoiseSource<'a>, drawn: int) -> bool {
        match start {
            NoiseSource::Given { nibbles, next } => self == (NoiseSource::Given {
                nibbles,
                next: (next + drawn) as usize,
            }),
            NoiseSource::Random(_) => self is Random,
        }
    }

    /// The next `count` nibbles of the source, where the source fixes them.
    pub open spec fn upcoming(self, count: int) -> Seq<u8> {
        match self {
            NoiseSource::Given { nibbles, next } => nibbles@.subrange(next as int, next + count),
            NoiseSource::Random(_) => Seq::empty(),
        }
    }

    /// A source that hands out `nibbles`, from the first on.
    pub fn given(nibbles: &'a [u8]) -> (source: NoiseSource<'a>)
        ensures
            source == (NoiseSource::Given { nibbles, next: 0 }),
    {
        NoiseSource::Given { nibbles, next: 0 }
    }

    /// A source of random nibbles.
    pub fn random() -> (source: NoiseSource<'a>)
        ensures
            source is Random,
    {
        NoiseSource::Random(rand::thread_rng())
    }

    /// Takes the next nibble from the source.
    pub fn draw(&mut self) -> (nibble: u8)
        requires
            old(self).can_draw(1),
        ensures
            nibble < 16,
            final(self).is_after(*old(self), 1),
            *old(self) matches NoiseSource::Given { nibbles, next } ==> nibble == nibbles@[next as int],
    {
        match self {
            NoiseSource::Given { nibbles, next } => {
                let nibble = nibbles[*next];
                *next = *next + 1;
                nibble
            },
            NoiseSource::Random(rng) => random_nibble(rng),
        }
    }
}

} // verus!
