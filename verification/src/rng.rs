//! The random source used for seeding territories: a seeded generator from
//! the rand crate, wrapped so that every draw is known to fall inside the
//! requested bound. Seeding a generator makes map generation reproducible.

use vstd::prelude::*;

use crate::geometry::Coord;

verus! {

#[verifier::external_type_specification]
#[verifier::external_body]
pub struct ExStdRng(rand::rngs::StdRng);

/// A random source for map generation, deterministic for a given seed as far
/// as the underlying generator is.
pub struct MapRng {
    inner: rand::rngs::StdRng,
}

impl MapRng {
    /// Relies on rand's `SeedableRng::seed_from_u64` for `StdRng`: it builds
    /// a generator from the seed and never panics.
    #[verifier::external_body]
    pub fn new(seed: u64) -> (r: MapRng) {
        MapRng { inner: <rand::rngs::StdRng as rand::SeedableRng>::seed_from_u64(seed) }
    }

    /// Relies on rand's `RngExt::random_range`: on the half-open range
    /// `0..bound` it returns a uniform value below `bound`; it panics only on
    /// an empty range, which `bound >= 1` rules out.
    #[verifier::external_body]
    fn next_below(&mut self, bound: u32) -> (r: u32)
        requires
            bound >= 1,
        ensures
            r < bound,
    {
        rand::RngExt::random_range(&mut self.inner, 0..bound)
    }

    /// Draws a coordinate uniformly over a `width` by `height` grid.
    pub fn draw_coord(&mut self, width: u32, height: u32) -> (c: Coord)
        requires
            width >= 1,
            height >= 1,
        ensures
            c.col < width && c.row < height,
    {
        let col = self.next_below(width);
        let row = self.next_below(height);
        Coord { col, row }
    }
}

} // verus!
