use vstd::prelude::*;
use std::hash::{Hash, Hasher};
use std::collections::hash_map::DefaultHasher;

verus! {

/// Divides each dimension into equal slots and samples the center of each
/// slot: sample `i` of a pixel lies in column `i % num_x_samples` and row
/// `i / num_x_samples` of a `num_x_samples` by `num_y_samples` grid.
#[derive(Clone, Copy, Debug)]
pub struct UniformSampler {
    num_x_samples: usize,
    num_y_samples: usize,
    sample_index: usize,
}

impl UniformSampler {
    /// Number of grid columns.
    pub closed spec fn spec_num_x_samples(&self) -> usize {
        self.num_x_samples
    }

    /// Number of grid rows.
    pub closed spec fn spec_num_y_samples(&self) -> usize {
        self.num_y_samples
    }

    /// Index of the current sample within the pixel.
    pub closed spec fn spec_sample_index(&self) -> usize {
        self.sample_index
    }

    pub fn new(num_x_samples: usize, num_y_samples: usize) -> (s: Self)
        ensures
            s.spec_num_x_samples() == num_x_samples,
            s.spec_num_y_samples() == num_y_samples,
            s.spec_sample_index() == 0,
    {
        Self { num_x_samples, num_y_samples, sample_index: 0 }
    }

    /// Number of grid columns.
    pub fn num_x_samples(&self) -> (n: usize)
        ensures
            n == self.spec_num_x_samples(),
    {
        self.num_x_samples
    }

    /// Number of grid rows.
    pub fn num_y_samples(&self) -> (n: usize)
        ensures
            n == self.spec_num_y_samples(),
    {
        self.num_y_samples
    }

    /// Samples per pixel: one per grid cell.
    pub fn num_samples(&self) -> (n: usize)
        requires
            self.spec_num_x_samples() * self.spec_num_y_samples() <= usize::MAX,
        ensures
            n == self.spec_num_x_samples() * self.spec_num_y_samples(),
    {
        self.num_x_samples * self.num_y_samples
    }

    /// Starts sample `sample_index` of a pixel; the pixel itself does not
    /// change the samples.
    pub fn start_pixel(&mut self, x: usize, y: usize, sample_index: usize)
        ensures
            final(self).spec_sample_index() == sample_index,
            final(self).spec_num_x_samples() == old(self).spec_num_x_samples(),
            final(self).spec_num_y_samples() == old(self).spec_num_y_samples(),
    {
        self.sample_index = sample_index;
    }

    /// The grid cell `(column, row)` of the current sample.
    pub fn cell(&self) -> (c: (usize, usize))
        requires
            self.spec_num_x_samples() > 0,
        ensures
            c.0 == self.spec_sample_index() % self.spec_num_x_samples(),
            c.1 == self.spec_sample_index() / self.spec_num_x_samples(),
    {
        (self.sample_index % self.num_x_samples, self.sample_index / self.num_x_samples)
    }

    /// The current sample index and the number of grid cells, from which the
    /// one-dimensional sample `(index + 0.5) / cells` is formed.
    pub fn slot(&self) -> (s: (usize, usize))
        requires
            self.spec_num_x_samples() * self.spec_num_y_samples() <= usize::MAX,
        ensures
            s.0 == self.spec_sample_index(),
            s.1 == self.spec_num_x_samples() * self.spec_num_y_samples(),
    {
        (self.sample_index, self.num_x_samples * self.num_y_samples)
    }
}

/// Feeds a `usize` to a hasher through std's `Hash::hash`, which writes the
/// value's native-endian bytes. Std leaves the hash algorithm unspecified,
/// so nothing is stated of the hasher's state afterwards.
#[verifier::external_body]
fn hash_usize(hasher: &mut DefaultHasher, value: usize) {
    value.hash(hasher);
}

/// Hashes the sampler seed and pixel co-ordinates, in that order, with
/// std's `DefaultHasher`; the result is unspecified.
fn pixel_hash(seed: usize, x: usize, y: usize) -> u64 {
    let mut hasher = DefaultHasher::new();
    hash_usize(&mut hasher, seed);
    hash_usize(&mut hasher, x);
    hash_usize(&mut hasher, y);
    hasher.finish()
}

/// Keeps the state that drives Owen-scrambled Sobol sequences: the per-pixel
/// scramble seed, the sample index and the next dimension to draw.
#[derive(Clone, Copy, Debug)]
pub struct SobolSampler {
    seed: usize,
    num_samples: usize,
    hash: u32,
    sample_index: u32,
    dimension: u32,
}

impl SobolSampler {
    pub closed spec fn spec_seed(&self) -> usize {
        self.seed
    }

    pub closed spec fn spec_num_samples(&self) -> usize {
        self.num_samples
    }

    /// Scramble seed of the current pixel.
    pub closed spec fn spec_hash(&self) -> u32 {
        self.hash
    }

    pub closed spec fn spec_sample_index(&self) -> u32 {
        self.sample_index
    }

    /// The next Sobol dimension to draw.
    pub closed spec fn spec_dimension(&self) -> u32 {
        self.dimension
    }

    pub fn new(seed: usize, num_samples: usize) -> (s: Self)
        ensures
            s.spec_seed() == seed,
            s.spec_num_samples() == num_samples,
            s.spec_hash() == 0,
            s.spec_sample_index() == 0,
            s.spec_dimension() == 0,
    {
        SobolSampler { seed, num_samples, hash: 0, sample_index: 0, dimension: 0 }
    }

    pub fn num_samples(&self) -> (n: usize)
        ensures
            n == self.spec_num_samples(),
    {
        self.num_samples
    }

    /// Starts sample `sample_index` of a pixel whose seed hash is `hash`:
    /// keeps the low 32 bits of both and restarts at dimension 0.
    pub fn start_pixel_with_hash(&mut self, hash: u64, sample_index: usize)
        ensures
            final(self).spec_hash() == hash as u32,
            final(self).spec_sample_index() == sample_index as u32,
            final(self).spec_dimension() == 0,
            final(self).spec_seed() == old(self).spec_seed(),
            final(self).spec_num_samples() == old(self).spec_num_samples(),
    {
        self.hash = hash as u32;
        self.sample_index = sample_index as u32;
        self.dimension = 0;
    }

    /// Starts sample `sample_index` of pixel `(x, y)`; the pixel's scramble
    /// seed comes from hashing the sampler seed with the pixel co-ordinates.
    pub fn start_pixel(&mut self, x: usize, y: usize, sample_index: usize)
        ensures
            final(self).spec_sample_index() == sample_index as u32,
            final(self).spec_dimension() == 0,
            final(self).spec_seed() == old(self).spec_seed(),
            final(self).spec_num_samples() == old(self).spec_num_samples(),
    {
        let hash = pixel_hash(self.seed, x, y);
        self.start_pixel_with_hash(hash, sample_index);
    }

    /// The next Sobol dimension to draw.
    pub fn dimension(&self) -> (d: u32)
        ensures
            d == self.spec_dimension(),
    {
        self.dimension
    }

    /// The `(sample_index, dimension, scramble seed)` of the next Sobol value
    /// to draw; moves on to the following dimension.
    pub fn next_dimension(&mut self) -> (d: (u32, u32, u32))
        requires
            old(self).spec_dimension() < u32::MAX,
        ensures
            d == (old(self).spec_sample_index(), old(self).spec_dimension(), old(self).spec_hash()),
            final(self).spec_dimension() == old(self).spec_dimension() + 1,
            final(self).spec_sample_index() == old(self).spec_sample_index(),
            final(self).spec_hash() == old(self).spec_hash(),
            final(self).spec_seed() == old(self).spec_seed(),
            final(self).spec_num_samples() == old(self).spec_num_samples(),
    {
        let d = (self.sample_index, self.dimension, self.hash);
        self.dimension = self.dimension + 1;
        d
    }
}

} // verus!
