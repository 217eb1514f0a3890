//! Batch processing support: batch sizes and counters for physics passes,
//! slices of fixed-size batches, and Morton (Z-order) bit interleaving.

use vstd::prelude::*;

verus! {

/// Configuration for batch physics processing
#[derive(Clone, Copy, Debug, PartialEq, Eq, Structural)]
pub struct BatchPhysicsConfig {
    /// Batch size for processing
    pub batch_size: usize,
    /// Enable strict alignment checks
    pub strict_alignment: bool,
}

impl Default for BatchPhysicsConfig {
    fn default() -> (r: Self)
        ensures
            r == (BatchPhysicsConfig { batch_size: 256, strict_alignment: false }),
    {
        Self { batch_size: 256, strict_alignment: false }
    }
}

/// Statistics from batch operations
#[derive(Clone, Copy, Debug, PartialEq, Eq, Structural)]
pub struct BatchStats {
    /// Total entities processed
    pub entities_processed: usize,
    /// Number of batches processed
    pub batches_processed: usize,
}

impl Default for BatchStats {
    fn default() -> (r: Self)
        ensures
            r == (BatchStats { entities_processed: 0, batches_processed: 0 }),
    {
        Self { entities_processed: 0, batches_processed: 0 }
    }
}

/// Batch processor for physics passes: it bounds each pass by the
/// configured batch size and counts what the passes processed.
#[derive(Debug)]
pub struct BatchPhysicsProcessor {
    config: BatchPhysicsConfig,
    stats: BatchStats,
}

impl BatchPhysicsProcessor {
    pub closed spec fn spec_config(&self) -> BatchPhysicsConfig {
        self.config
    }

    pub closed spec fn spec_stats(&self) -> BatchStats {
        self.stats
    }

    /// Creates a new batch processor with default configuration
    pub fn new() -> (r: Self)
        ensures
            r.spec_config() == (BatchPhysicsConfig { batch_size: 256, strict_alignment: false }),
            r.spec_stats() == (BatchStats { entities_processed: 0, batches_processed: 0 }),
    {
        Self { config: BatchPhysicsConfig::default(), stats: BatchStats::default() }
    }

    /// Creates a processor with custom configuration
    pub fn with_config(config: BatchPhysicsConfig) -> (r: Self)
        ensures
            r.spec_config() == config,
            r.spec_stats() == (BatchStats { entities_processed: 0, batches_processed: 0 }),
    {
        Self { config, stats: BatchStats::default() }
    }

    /// Returns a reference to the current configuration
    pub fn config(&self) -> (r: &BatchPhysicsConfig)
        ensures
            *r == self.spec_config(),
    {
        &self.config
    }

    /// Returns statistics from the last operations
    pub fn stats(&self) -> (r: &BatchStats)
        ensures
            *r == self.spec_stats(),
    {
        &self.stats
    }

    /// Resets statistics counters
    pub fn reset_stats(&mut self)
        ensures
            final(self).spec_config() == old(self).spec_config(),
            final(self).spec_stats() == (BatchStats { entities_processed: 0, batches_processed: 0 }),
    {
        self.stats = BatchStats::default();
    }

    /// How many of `len` elements one pass processes: at most the batch size.
    pub fn pass_len(&self, len: usize) -> (r: usize)
        ensures
            r == if self.spec_config().batch_size < len {
                self.spec_config().batch_size
            } else {
                len
            },
    {
        if self.config.batch_size < len {
            self.config.batch_size
        } else {
            len
        }
    }

    /// Counts a pass that processed `processed` elements, and, when
    /// `count_batches` is set, its groups of up to eight.
    pub fn record_pass(&mut self, processed: usize, count_batches: bool)
        requires
            old(self).spec_stats().entities_processed + processed <= usize::MAX,
            count_batches ==> old(self).spec_stats().batches_processed + (processed + 7) / 8 <= usize::MAX,
            processed + 7 <= usize::MAX,
        ensures
            final(self).spec_config() == old(self).spec_config(),
            final(self).spec_stats().entities_processed == old(self).spec_stats().entities_processed + processed,
            final(self).spec_stats().batches_processed == old(self).spec_stats().batches_processed + if count_batches {
                (processed + 7) / 8
            } else {
                0
            },
    {
        self.stats.entities_processed = self.stats.entities_processed + processed;
        if count_batches {
            self.stats.batches_processed = self.stats.batches_processed + (processed + 7) / 8;
        }
    }
}

impl Default for BatchPhysicsProcessor {
    fn default() -> (r: Self)
        ensures
            r.spec_config() == (BatchPhysicsConfig { batch_size: 256, strict_alignment: false }),
            r.spec_stats() == (BatchStats { entities_processed: 0, batches_processed: 0 }),
    {
        Self::new()
    }
}

/// Batch iterator over a slice: consecutive batches of the batch size, the
/// last one shorter when the length is not a multiple.
#[derive(Debug)]
pub struct SimdBatchIterator<'a, T> {
    data: &'a [T],
    batch_size: usize,
    current: usize,
}

impl<'a, T> SimdBatchIterator<'a, T> {
    /// The data batched.
    pub closed spec fn spec_data(&self) -> Seq<T> {
        self.data@
    }

    /// The batch size.
    pub closed spec fn spec_batch_size(&self) -> usize {
        self.batch_size
    }

    /// How many elements have been handed out.
    pub closed spec fn spec_current(&self) -> usize {
        self.current
    }

    /// Creates a new batch iterator; a batch size of zero counts as one.
    pub fn new(data: &'a [T], batch_size: usize) -> (r: Self)
        ensures
            r.spec_data() == data@,
            r.spec_batch_size() == if batch_size == 0 {
                1
            } else {
                batch_size
            },
            r.spec_current() == 0,
    {
        let size = if batch_size == 0 {
            1
        } else {
            batch_size
        };
        Self { data, batch_size: size, current: 0 }
    }

    /// Returns the remaining number of elements
    pub fn remaining(&self) -> (r: usize)
        ensures
            r == if self.spec_current() < self.spec_data().len() {
                self.spec_data().len() - self.spec_current()
            } else {
                0
            },
    {
        if self.current < self.data.len() {
            self.data.len() - self.current
        } else {
            0
        }
    }

    /// Returns true if all batches have been consumed
    pub fn is_exhausted(&self) -> (r: bool)
        ensures
            r == (self.spec_current() >= self.spec_data().len()),
    {
        self.current >= self.data.len()
    }

    /// The next batch: the following elements, at most the batch size.
    pub fn next(&mut self) -> (r: Option<&'a [T]>)
        requires
            old(self).spec_batch_size() > 0,
        ensures
            final(self).spec_data() == old(self).spec_data(),
            final(self).spec_batch_size() == old(self).spec_batch_size(),
            ({
                let cur = old(self).spec_current() as int;
                let len = old(self).spec_data().len() as int;
                let size = old(self).spec_batch_size() as int;
                if cur >= len {
                    r is None && final(self).spec_current() == old(self).spec_current()
                } else {
                    let end = if size < len - cur {
                        cur + size
                    } else {
                        len
                    };
                    &&& r is Some
                    &&& r.unwrap()@ == old(self).spec_data().subrange(cur, end)
                    &&& final(self).spec_current() == end
                }
            }),
    {
        if self.current >= self.data.len() {
            return None;
        }
        let remaining = self.data.len() - self.current;
        let size = if self.batch_size < remaining {
            self.batch_size
        } else {
            remaining
        };
        let slice = vstd::slice::slice_subrange(self.data, self.current, self.current + size);
        self.current = self.current + size;
        Some(slice)
    }
}

/// Bit `i` of `v`.
pub open spec fn bit_of(v: u32, i: u32) -> u32 {
    (v >> i) & 1u32
}

/// The four mask-and-shift steps that move bit `n` of a 16-bit value to bit `2n`.
pub open spec fn spread_steps(x: u32) -> u32 {
    let a = (x | (x << 8u32)) & 0x00FF_00FFu32;
    let b = (a | (a << 4u32)) & 0x0F0F_0F0Fu32;
    let c = (b | (b << 2u32)) & 0x3333_3333u32;
    (c | (c << 1u32)) & 0x5555_5555u32
}

/// The steps leave the odd bits clear and, below 16 bits, move bit `n` to bit `2n`.
pub proof fn lemma_spread_steps(x: u32)
    ensures
        spread_steps(x) & 0xAAAA_AAAAu32 == 0,
        x < 0x1_0000 ==> forall|n: u32| n < 16 ==> #[trigger] bit_of(spread_steps(x), (2 * n) as u32) == bit_of(x, n),
{
    assert(spread_steps(x) & 0xAAAA_AAAAu32 == 0) by (bit_vector);
    assert(x < 0x1_0000 ==> forall|n: u32| n < 16 ==> ((spread_steps(x) >> ((2 * n) as u32)) & 1u32) == ((x >> n) & 1u32)) by (bit_vector);
}

/// The spread of the low byte of `v`, or-ed with the spread of its second
/// byte moved up sixteen bits.
pub open spec fn spread_word_spec(v: u32) -> u32 {
    spread_steps(v & 0xFFu32) | (spread_steps((v >> 8u32) & 0xFFu32) << 16u32)
}

/// Below 16 bits, the byte-wise spread is the spread of the whole value.
pub proof fn lemma_spread_word(v: u32)
    ensures
        v < 0x1_0000 ==> spread_word_spec(v) == spread_steps(v),
{
    assert(v < 0x1_0000 ==> (spread_steps(v & 0xFFu32) | (spread_steps((v >> 8u32) & 0xFFu32) << 16u32))
        == spread_steps(v)) by (bit_vector);
}

/// Or-ing the spread of `x` with the spread of `y` moved up one bit puts
/// bit `n` of `x` at bit `2n` and bit `n` of `y` at bit `2n + 1`.
proof fn lemma_interleave_2d(x: u32, y: u32)
    ensures
        x < 0x1_0000 && y < 0x1_0000 ==> forall|n: u32|
            n < 16 ==> #[trigger] bit_of(spread_steps(x) | (spread_steps(y) << 1u32), (2 * n) as u32)
                == bit_of(x, n) && bit_of(spread_steps(x) | (spread_steps(y) << 1u32), (2 * n + 1) as u32)
                == bit_of(y, n),
{
    assert(x < 0x1_0000 && y < 0x1_0000 ==> forall|n: u32|
        n < 16 ==> (((spread_steps(x) | (spread_steps(y) << 1u32)) >> ((2 * n) as u32)) & 1u32) == ((x >> n) & 1u32)
            && (((spread_steps(x) | (spread_steps(y) << 1u32)) >> ((2 * n + 1) as u32)) & 1u32) == ((y >> n)
            & 1u32)) by (bit_vector);
}

/// Distinct 16-bit coordinate pairs have distinct 2D Morton codes.
pub proof fn lemma_interleave_2d_injective(x1: u32, y1: u32, x2: u32, y2: u32)
    requires
        x1 < 0x1_0000 && y1 < 0x1_0000 && x2 < 0x1_0000 && y2 < 0x1_0000,
        spread_word_spec(x1) | (spread_word_spec(y1) << 1u32) == spread_word_spec(x2) | (spread_word_spec(y2) << 1u32),
    ensures
        x1 == x2 && y1 == y2,
{
    lemma_spread_word(x1);
    lemma_spread_word(y1);
    lemma_spread_word(x2);
    lemma_spread_word(y2);
    assert(x1 < 0x1_0000 && y1 < 0x1_0000 && x2 < 0x1_0000 && y2 < 0x1_0000 && (spread_steps(x1) | (spread_steps(y1)
        << 1u32)) == (spread_steps(x2) | (spread_steps(y2) << 1u32)) ==> x1 == x2 && y1 == y2) by (bit_vector);
}

/// Morton code utility for spatial partitioning (Z-order curves)
#[derive(Debug)]
pub struct MortonEncoder {
    lut: [u32; 256],
}

impl MortonEncoder {
    /// The spread of each byte.
    pub closed spec fn table(&self) -> Seq<u32> {
        self.lut@
    }

    /// The table holds the spread of each byte.
    pub open spec fn wf(&self) -> bool {
        &&& self.table().len() == 256
        &&& forall|i: int| 0 <= i < 256 ==> #[trigger] self.table()[i] == spread_steps(i as u32)
    }

    /// Creates a new Morton encoder with the spread of each byte precomputed
    pub fn new() -> (r: Self)
        ensures
            r.wf(),
    {
        let mut lut = [0u32; 256];
        let mut i: usize = 0;
        while i < 256
            invariant
                i <= 256,
                lut@.len() == 256,
                forall|j: int| 0 <= j < i ==> #[trigger] lut@[j] == spread_steps(j as u32),
            decreases 256 - i,
        {
            let v = Self::spread_bits(i as u32);
            lut[i] = v;
            i = i + 1;
        }
        Self { lut }
    }

    /// Spreads the bits of a 16-bit value: bit n goes to bit 2n, odd bits are clear
    pub fn spread_bits(x: u32) -> (r: u32)
        ensures
            r == spread_steps(x),
            r & 0xAAAA_AAAAu32 == 0,
            x < 0x1_0000 ==> forall|n: u32| n < 16 ==> #[trigger] bit_of(r, (2 * n) as u32) == bit_of(x, n),
    {
        proof {
            lemma_spread_steps(x);
        }
        let mut v = x;
        v = (v | (v << 8u32)) & 0x00FF_00FFu32;
        v = (v | (v << 4u32)) & 0x0F0F_0F0Fu32;
        v = (v | (v << 2u32)) & 0x3333_3333u32;
        v = (v | (v << 1u32)) & 0x5555_5555u32;
        v
    }

    /// The 16-bit spread of `v` taken byte by byte from the table: the low
    /// byte to the even bits below 16, the next byte to the even bits above.
    fn spread_word(&self, v: u32) -> (r: u32)
        requires
            self.wf(),
        ensures
            r == spread_word_spec(v),
    {
        proof {
            assert((v & 0xFFu32) < 256) by (bit_vector);
            assert(((v >> 8u32) & 0xFFu32) < 256) by (bit_vector);
        }
        let lo = self.lut[(v & 0xFFu32) as usize];
        let hi = self.lut[((v >> 8u32) & 0xFFu32) as usize];
        lo | (hi << 16u32)
    }

    /// Interleaves the bits of two quantized coordinates into a 2D Morton
    /// code: `xi` in the even bits, `yi` in the odd bits.
    pub fn interleave_2d(&self, xi: u32, yi: u32) -> (r: u32)
        requires
            self.wf(),
        ensures
            r == spread_word_spec(xi) | (spread_word_spec(yi) << 1u32),
            xi < 0x1_0000 && yi < 0x1_0000 ==> forall|n: u32|
                n < 16 ==> #[trigger] bit_of(r, (2 * n) as u32) == bit_of(xi, n) && bit_of(r, (2 * n + 1) as u32)
                    == bit_of(yi, n),
    {
        let x_even = self.spread_word(xi);
        let y_odd = self.spread_word(yi) << 1u32;
        proof {
            lemma_spread_word(xi);
            lemma_spread_word(yi);
            lemma_interleave_2d(xi, yi);
        }
        x_even | y_odd
    }

    /// Combines three quantized coordinates into a 3D code: the spread bits
    /// of `xi`, of `yi` shifted up one and of `zi` shifted up two, or-ed.
    pub fn interleave_3d(&self, xi: u32, yi: u32, zi: u32) -> (r: u32)
        requires
            self.wf(),
        ensures
            r == spread_word_spec(xi) | (spread_word_spec(yi) << 1u32) | (spread_word_spec(zi) << 2u32),
    {
        let x_bits = self.spread_word(xi);
        let y_bits = self.spread_word(yi) << 1u32;
        let z_bits = self.spread_word(zi) << 2u32;
        x_bits | y_bits | z_bits
    }

    /// Expands the lower 10 bits of `x` to a 30-bit Morton code: bit `n`
    /// goes to bit `3n`, every other bit is clear.
    pub fn expand_bits(x: u32) -> (r: u32)
        ensures
            r == expand_steps(x & 0x3FFu32),
            r < 0x4000_0000,
            forall|n: u32| n < 10 ==> #[trigger] bit_of(r, (3 * n) as u32) == bit_of(x, n),
            r & 0xB6DB_6DB6u32 == 0,
    {
        proof {
            lemma_expand_steps(x);
        }
        let mut v = x & 0x3FFu32;
        v = (v | (v << 16u32)) & 0x0300_00FFu32;
        v = (v | (v << 8u32)) & 0x0300_F00Fu32;
        v = (v | (v << 4u32)) & 0x030C_30C3u32;
        v = (v | (v << 2u32)) & 0x0924_9249u32;
        v
    }
}

/// The four mask-and-shift steps that move bit `n` of a 10-bit value to bit `3n`.
pub open spec fn expand_steps(x: u32) -> u32 {
    let a = (x | (x << 16u32)) & 0x0300_00FFu32;
    let b = (a | (a << 8u32)) & 0x0300_F00Fu32;
    let c = (b | (b << 4u32)) & 0x030C_30C3u32;
    (c | (c << 2u32)) & 0x0924_9249u32
}

/// The steps on the lower 10 bits of `x` place bit `n` at bit `3n` and
/// nothing else.
pub proof fn lemma_expand_steps(x: u32)
    ensures
        expand_steps(x & 0x3FFu32) < 0x4000_0000,
        expand_steps(x & 0x3FFu32) & 0xB6DB_6DB6u32 == 0,
        forall|n: u32| n < 10 ==> #[trigger] bit_of(expand_steps(x & 0x3FFu32), (3 * n) as u32) == bit_of(x, n),
{
    assert(expand_steps(x & 0x3FFu32) < 0x4000_0000) by (bit_vector);
    assert(expand_steps(x & 0x3FFu32) & 0xB6DB_6DB6u32 == 0) by (bit_vector);
    assert(forall|n: u32| n < 10 ==> ((expand_steps(x & 0x3FFu32) >> ((3 * n) as u32)) & 1u32) == ((x >> n) & 1u32)) by (bit_vector);
}

} // verus!
