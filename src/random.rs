//! Hash-based 2D value noise used to scatter terrain feature points.
use vstd::prelude::*;
use vstd::arithmetic::div_mod::lemma_fundamental_div_mod_converse;
use vstd::wrapping::u64_specs;

verus! {

/// Side length of the square lattice on which 2D coordinates are folded
/// into a single 64-bit index.
pub const LATTICE_SIDE: u64 = 0x4_0000_0000;

/// The Murmur3 64-bit finalizer, as used for the noise hash.
pub open spec fn murmur_mix(x: u64) -> u64 {
    let a = x ^ (x >> 16u64);
    let b = u64_specs::wrapping_mul(a, 0x85EBCA6Bu64);
    let c = b ^ (b >> 13u64);
    let d = u64_specs::wrapping_mul(c, 0xC2B2AE35u64);
    d >> 16u64
}

/// Mixes the bits of `input` (Murmur3 finalizer).
pub fn hash64(input: u64) -> (r: u64)
    ensures
        r == murmur_mix(input),
{
    let a = input ^ (input >> 16u64);
    let b = a.wrapping_mul(0x85EBCA6Bu64);
    let c = b ^ (b >> 13u64);
    let d = c.wrapping_mul(0xC2B2AE35u64);
    d >> 16u64
}

/// A generator of reproducible pseudo-random values addressed by an index.
pub trait SeededRandom: Sized {
    spec fn seed_spec(&self) -> u64;

    spec fn random_spec(&self, index: u64) -> u16;

    fn new() -> (r: Self)
        ensures
            r.seed_spec() == 0,
    ;

    fn set_seed(&mut self, seed: u64)
        ensures
            final(self).seed_spec() == seed,
    ;

    fn get_random(&self, index: u64) -> (r: u16)
        ensures
            r == self.random_spec(index),
    ;
}

/// A seeded generator that can also be addressed by 2D coordinates.
pub trait Random2D: SeededRandom {
    spec fn random_2d_spec(&self, x: u64, y: u64) -> u16;

    fn get_random_2d(&self, x: u64, y: u64) -> (r: u16)
        ensures
            r == self.random_2d_spec(x, y),
    ;
}

/// Folds 2D coordinates into one index: row-major on a lattice of side
/// `LATTICE_SIDE`, wrapping on overflow.
pub open spec fn lattice_index(x: u64, y: u64) -> u64 {
    u64_specs::wrapping_add(
        u64_specs::wrapping_mul(y % LATTICE_SIDE, LATTICE_SIDE),
        x % LATTICE_SIDE,
    )
}

/// The 16-bit value that a hashed generator gives at `index`: each 64-bit
/// hash is cut into four 16-bit lanes. The seed is recorded but does not
/// enter the hash.
pub open spec fn hashed_value(index: u64) -> u16 {
    ((murmur_mix(index / 4) >> ((index & 3u64) * 16u64)) & 0xFFFFu64) as u16
}

/// 16-bit value noise computed from a 64-bit hash of the index.
pub struct HashedRandom2D16Bit {
    pub seed: u64,
}

impl SeededRandom for HashedRandom2D16Bit {
    open spec fn seed_spec(&self) -> u64 {
        self.seed
    }

    open spec fn random_spec(&self, index: u64) -> u16 {
        hashed_value(index)
    }

    fn new() -> (r: Self) {
        HashedRandom2D16Bit { seed: 0 }
    }

    fn set_seed(&mut self, seed: u64) {
        self.seed = seed;
    }

    fn get_random(&self, index: u64) -> (r: u16) {
        let remain = index & 3u64;
        assert(remain <= 3u64) by (bit_vector)
            requires
                remain == index & 3u64,
        ;
        let h = hash64(index / 4);
        ((h >> (remain * 16u64)) & 0xFFFFu64) as u16
    }
}

impl Random2D for HashedRandom2D16Bit {
    open spec fn random_2d_spec(&self, x: u64, y: u64) -> u16 {
        hashed_value(lattice_index(x, y))
    }

    fn get_random_2d(&self, x: u64, y: u64) -> (r: u16) {
        let index = (y % LATTICE_SIDE).wrapping_mul(LATTICE_SIDE).wrapping_add(x % LATTICE_SIDE);
        self.get_random(index)
    }
}

/// The cutoff below which (or symmetrically, above `65536 - cutoff`) a
/// 16-bit noise value marks a critical point, so that about `desired` of
/// `cells` values qualify: the floor of the exact quotient `65536 * desired /
/// cells`, saturating at the largest 16-bit value.
pub open spec fn critical_threshold(desired: u32, cells: nat) -> int {
    if cells == 0 || 65536 * desired / (cells as int) > 65535 {
        65535
    } else {
        65536 * desired / (cells as int)
    }
}

/// Whether a noise value lies in either tail cut off by `threshold`.
pub open spec fn is_critical(value: u16, threshold: int) -> bool {
    value < threshold || value > 65536 - threshold
}

/// A rectangular window of 2D noise, stored row-major.
pub struct RandomSlice2D<T: Random2D> {
    pub width: usize,
    pub height: usize,
    pub generator: T,
    pub buffer: Vec<u16>,
}

impl<T: Random2D> RandomSlice2D<T> {
    /// The buffer holds exactly one value per cell of the window.
    pub open spec fn well_formed(&self) -> bool {
        self.buffer.len() == self.width * self.height
    }

    /// The value that filling the window at `(x, y)` leaves in cell `k`.
    pub open spec fn noise_at(&self, x: u64, y: u64, k: int) -> u16 {
        self.generator.random_2d_spec(
            u64_specs::wrapping_add(x, (k % self.width as int) as u64),
            u64_specs::wrapping_add(y, (k / self.width as int) as u64),
        )
    }

    /// The critical points among the first `k` cells, in row-major order.
    pub open spec fn critical_prefix(&self, threshold: int, k: nat) -> Seq<(usize, usize)>
        decreases k,
    {
        if k == 0 {
            Seq::empty()
        } else {
            let j = k - 1;
            let rest = self.critical_prefix(threshold, j as nat);
            if is_critical(self.buffer@[j], threshold) {
                rest.push(((j % self.width as int) as usize, (j / self.width as int) as usize))
            } else {
                rest
            }
        }
    }

    /// A zero-filled window of `width` by `height` cells whose generator
    /// is seeded with `seed`.
    pub fn new(width: usize, height: usize, seed: u64) -> (r: Self)
        requires
            width * height <= usize::MAX,
        ensures
            r.well_formed(),
            r.width == width,
            r.height == height,
            r.generator.seed_spec() == seed,
            forall|i: int| 0 <= i < r.buffer@.len() ==> r.buffer@[i] == 0,
    {
        let mut generator = T::new();
        generator.set_seed(seed);
        let n: usize = width * height;
        let mut buffer: Vec<u16> = Vec::with_capacity(n);
        let mut i: usize = 0;
        while i < n
            invariant
                i <= n,
                buffer@.len() == i,
                forall|j: int| 0 <= j < i ==> buffer@[j] == 0,
            decreases n - i,
        {
            buffer.push(0);
            i = i + 1;
        }
        RandomSlice2D { width, height, generator, buffer }
    }

    /// The value stored for cell `(x, y)`.
    pub fn get_value(&self, x: usize, y: usize) -> (r: u16)
        requires
            self.well_formed(),
            x < self.width,
            y < self.height,
        ensures
            r == self.buffer@[y * self.width + x],
    {
        proof {
            let (w, h) = (self.width as int, self.height as int);
            assert(y * w + x < w * h) by (nonlinear_arith)
                requires
                    x < w,
                    y < h,
            ;
        }
        self.buffer[y * self.width + x]
    }

    /// Fills the window with the noise whose corner is at `(x, y)`: cell
    /// `(dx, dy)` receives the value at `(x + dx, y + dy)`, wrapping.
    pub fn get_slice_at(&mut self, x: u64, y: u64)
        requires
            old(self).well_formed(),
        ensures
            final(self).well_formed(),
            final(self).width == old(self).width,
            final(self).height == old(self).height,
            final(self).generator == old(self).generator,
            forall|k: int|
                0 <= k < final(self).buffer@.len() ==> final(self).buffer@[k] == final(self).noise_at(x, y, k),
    {
        let w = self.width;
        let h = self.height;
        let mut dy: usize = 0;
        while dy < h
            invariant
                w == self.width,
                h == self.height,
                self.generator == old(self).generator,
                self.buffer.len() == w * h,
                dy <= h,
                forall|k: int| 0 <= k < dy * w ==> self.buffer@[k] == self.noise_at(x, y, k),
            decreases h - dy,
        {
            let mut dx: usize = 0;
            while dx < w
                invariant
                    w == self.width,
                    h == self.height,
                    self.generator == old(self).generator,
                    self.buffer.len() == w * h,
                    dy < h,
                    dx <= w,
                    forall|k: int| 0 <= k < dy * w + dx ==> self.buffer@[k] == self.noise_at(x, y, k),
                decreases w - dx,
            {
                proof {
                    assert(dy * w + dx < w * h) by (nonlinear_arith)
                        requires
                            dx < w,
                            dy < h,
                    ;
                    lemma_fundamental_div_mod_converse(dy * w + dx, w as int, dy as int, dx as int);
                }
                let k = dy * w + dx;
                let v = self.generator.get_random_2d(x.wrapping_add(dx as u64), y.wrapping_add(dy as u64));
                self.buffer.set(k, v);
                dx = dx + 1;
            }
            proof {
                assert((dy + 1) * w == dy * w + w) by (nonlinear_arith);
            }
            dy = dy + 1;
        }
    }

    /// Changes the window's size. Values kept are those at the same
    /// positions of the buffer; new cells are zero.
    pub fn update_slice_dimentions(&mut self, new_width: usize, new_height: usize)
        requires
            old(self).well_formed(),
            new_width * new_height <= usize::MAX,
        ensures
            final(self).well_formed(),
            final(self).width == new_width,
            final(self).height == new_height,
            final(self).generator == old(self).generator,
            forall|i: int|
                0 <= i < final(self).buffer@.len() ==> final(self).buffer@[i] == if i < old(self).buffer@.len() {
                    old(self).buffer@[i]
                } else {
                    0u16
                },
    {
        let n: usize = new_width * new_height;
        self.width = new_width;
        self.height = new_height;
        self.buffer.truncate(n);
        while self.buffer.len() < n
            invariant
                self.width == new_width,
                self.height == new_height,
                self.generator == old(self).generator,
                n == new_width * new_height,
                self.buffer@.len() <= n,
                self.buffer@.len() < n ==> self.buffer@.len() >= old(self).buffer@.len(),
                forall|i: int|
                    0 <= i < self.buffer@.len() ==> self.buffer@[i] == if i < old(self).buffer@.len() {
                        old(self).buffer@[i]
                    } else {
                        0u16
                    },
            decreases n - self.buffer@.len(),
        {
            self.buffer.push(0);
        }
    }

    /// The cells whose value lies in either tail of the 16-bit range, the
    /// tails being sized so that about `desired_number` cells qualify.
    /// Returned as `(x, y)` in row-major order.
    pub fn get_critical_points(&self, desired_number: u32) -> (r: Vec<(usize, usize)>)
        requires
            self.well_formed(),
        ensures
            r@ == self.critical_prefix(
                critical_threshold(desired_number, (self.width * self.height) as nat),
                (self.width * self.height) as nat,
            ),
    {
        let w = self.width;
        let h = self.height;
        let mut points: Vec<(usize, usize)> = Vec::new();
        let cells: usize = w * h;
        if cells == 0 {
            return points;
        }
        let scaled: u64 = 65536u64 * (desired_number as u64) / (cells as u64);
        let threshold: u64 = if scaled > 65535 {
            65535
        } else {
            scaled
        };
        let ghost t = critical_threshold(desired_number, cells as nat);
        assert(threshold == t);
        let mut y: usize = 0;
        while y < h
            invariant
                w == self.width,
                h == self.height,
                cells == w * h,
                cells > 0,
                threshold == t,
                t <= 65535,
                self.buffer@.len() == cells,
                y <= h,
                points@ == self.critical_prefix(t, (y * w) as nat),
            decreases h - y,
        {
            let mut x: usize = 0;
            while x < w
                invariant
                    w == self.width,
                    h == self.height,
                    cells == w * h,
                    threshold == t,
                    t <= 65535,
                    self.buffer@.len() == cells,
                    y < h,
                    x <= w,
                    points@ == self.critical_prefix(t, (y * w + x) as nat),
                decreases w - x,
            {
                proof {
                    assert(y * w + x < w * h) by (nonlinear_arith)
                        requires
                            x < w,
                            y < h,
                    ;
                    lemma_fundamental_div_mod_converse(y * w + x, w as int, y as int, x as int);
                }
                let value = self.buffer[y * w + x];
                if (value as u64) < threshold || (value as u64) > 65536 - threshold {
                    points.push((x, y));
                }
                x = x + 1;
            }
            proof {
                assert((y + 1) * w == y * w + w) by (nonlinear_arith);
            }
            y = y + 1;
        }
        assert(y * w == w * h) by (nonlinear_arith)
            requires
                y == h,
        ;
        points
    }
}

} // verus!
