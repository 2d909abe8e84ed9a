//! The random stream of one image row.
use vstd::prelude::*;

use rand::rngs::SmallRng;
use rand::{Rng, SeedableRng};

use crate::scalar::{Scalar, ONE_RAW};

verus! {

#[verifier::external_type_specification]
#[verifier::external_body]
pub struct ExSmallRng(SmallRng);

/// `SmallRng::seed_from_u64`: a generator made from `seed`. Nothing is
/// claimed of the numbers that it will give.
#[verifier::external_body]
fn seeded_generator(seed: u64) -> (rng: SmallRng) {
    SmallRng::seed_from_u64(seed)
}

/// `Rng::gen_range` on the half-open range `low..high`: the number drawn lies
/// in the range. The range must not be empty, or the call panics.
#[verifier::external_body]
fn draw_in_range(rng: &mut SmallRng, low: i64, high: i64) -> (r: i64)
    requires
        low < high,
    ensures
        low <= r < high,
{
    rng.gen_range(low..high)
}

/// The random stream of one row, with a record of every number drawn so far.
pub struct RowRng {
    seed: u64,
    generator: SmallRng,
    drawn: Ghost<Seq<i64>>,
}

impl RowRng {
    /// The seed that the stream was made from.
    pub closed spec fn seed(&self) -> u64 {
        self.seed
    }

    /// The raw values drawn so far, oldest first.
    pub closed spec fn log(&self) -> Seq<i64> {
        self.drawn@
    }

    /// The stream of the row with absolute index `row`: its seed is the index.
    pub fn for_row(row: usize) -> (r: RowRng)
        ensures
            r.seed() == row,
            r.log().len() == 0,
    {
        let seed = row as u64;
        RowRng { seed, generator: seeded_generator(seed), drawn: Ghost(Seq::empty()) }
    }

    /// A number in `[0, 1)`.
    pub fn unit_interval(&mut self) -> (r: Scalar)
        ensures
            0 <= r.raw < ONE_RAW,
            final(self).seed() == old(self).seed(),
            final(self).log() == old(self).log().push(r.raw),
    {
        let raw = draw_in_range(&mut self.generator, 0, ONE_RAW);
        self.drawn = Ghost(self.drawn@.push(raw));
        Scalar { raw }
    }

    /// A number in `[-1, 1)`.
    pub fn signed_unit(&mut self) -> (r: Scalar)
        ensures
            -ONE_RAW <= r.raw < ONE_RAW,
            final(self).seed() == old(self).seed(),
            final(self).log() == old(self).log().push(r.raw),
    {
        let raw = draw_in_range(&mut self.generator, -ONE_RAW, ONE_RAW);
        self.drawn = Ghost(self.drawn@.push(raw));
        Scalar { raw }
    }
}

} // verus!
