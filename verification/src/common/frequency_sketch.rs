//! A count-min style estimator of how often a hash has been seen.
//!
//! The table is a power-of-two number of 64-bit words, each holding sixteen
//! 4-bit counters.  A hash selects four counters, one per probe; its
//! frequency is the smallest of them.  After a fixed number of recorded
//! increments every counter is halved, so that stale popularity decays.
use vstd::prelude::*;

verus! {

/// A word in which the low three bits of every 4-bit counter are set.
pub const RESET_MASK: u64 = 0x7777_7777_7777_7777;

/// The table has room for ten samples per word before its counters are halved.
pub const SAMPLES_PER_WORD: u64 = 10;

/// The largest number of words a table may have on this platform: 2^30
/// where pointers are wider than 32 bits, 2^24 otherwise.
pub open spec fn spec_max_table_len() -> u32 {
    if usize::MAX > 0xFFFF_FFFF {
        0x4000_0000u32
    } else {
        0x0100_0000u32
    }
}

/// The multiplier of the probe with the given depth.
pub open spec fn spec_seed(depth: u8) -> u64 {
    if depth == 0 {
        0xc3a5_c85c_97cb_3127u64
    } else if depth == 1 {
        0xb492_b66f_be98_f273u64
    } else if depth == 2 {
        0x9ae1_6a3b_2f90_404fu64
    } else {
        0xcbf2_9ce4_8422_2325u64
    }
}

/// The hash as mixed for the probe with the given depth.
pub open spec fn spec_spread(hash: u64, depth: u8) -> u64 {
    let mixed = hash.wrapping_add(spec_seed(depth)).wrapping_mul(spec_seed(depth));
    mixed.wrapping_add(mixed >> 32)
}

/// The word of the table that the probe with the given depth reads.
pub open spec fn spec_index_of(hash: u64, depth: u8, table_mask: u64) -> u64 {
    spec_spread(hash, depth) & table_mask
}

/// The counter within a word that the probe with the given depth reads.
pub open spec fn spec_counter_index(hash: u64, depth: u8) -> u8 {
    (((hash & 3) << 2) as u8 + depth) as u8
}

/// The value of the 4-bit counter with the given index in a word.
pub open spec fn spec_counter(word: u64, counter_index: u8) -> u8 {
    ((word >> ((counter_index as u64) << 2)) & 0xF) as u8
}

/// The word with one counter incremented, unless that counter is at 15.
pub open spec fn spec_bump(word: u64, counter_index: u8) -> u64 {
    if spec_counter(word, counter_index) == 15 {
        word
    } else {
        (word + (1u64 << ((counter_index as u64) << 2))) as u64
    }
}

/// The word with every counter halved.
pub open spec fn spec_halve(word: u64) -> u64 {
    (word >> 1) & RESET_MASK
}

/// The value that the probe with the given depth reads from a table.
pub open spec fn spec_probe(table: Seq<u64>, hash: u64, depth: u8) -> u8 {
    spec_counter(
        table[spec_index_of(hash, depth, (table.len() - 1) as u64) as int],
        spec_counter_index(hash, depth),
    )
}

pub open spec fn spec_min(a: u8, b: u8) -> u8 {
    if a <= b {
        a
    } else {
        b
    }
}

/// The estimated frequency of a hash: the smallest of its four counters, and
/// zero for a table without words.
#[verifier::opaque]
pub open spec fn spec_frequency(table: Seq<u64>, hash: u64) -> u8 {
    if table.len() == 0 {
        0
    } else {
        spec_min(
            spec_min(spec_probe(table, hash, 0), spec_probe(table, hash, 1)),
            spec_min(spec_probe(table, hash, 2), spec_probe(table, hash, 3)),
        )
    }
}

/// The table after the probe with the given depth has incremented its
/// counter.
pub open spec fn spec_bump_probe(table: Seq<u64>, hash: u64, depth: u8) -> Seq<u64> {
    let index = spec_index_of(hash, depth, (table.len() - 1) as u64) as int;
    table.update(index, spec_bump(table[index], spec_counter_index(hash, depth)))
}

/// The table after all four probes of a hash have incremented their
/// counters, in the order of their depth.
pub open spec fn spec_bump_all(table: Seq<u64>, hash: u64) -> Seq<u64> {
    spec_bump_probe(spec_bump_probe(spec_bump_probe(spec_bump_probe(table, hash, 0), hash, 1), hash, 2), hash, 3)
}

/// The table with every counter of every word halved.
pub open spec fn spec_halve_all(table: Seq<u64>) -> Seq<u64> {
    Seq::new(table.len(), |i: int| spec_halve(table[i]))
}

/// The table after one increment of `hash` was recorded while the sample
/// counter stood at `size`.
pub open spec fn spec_increment_table(table: Seq<u64>, size: u64, hash: u64) -> Seq<u64> {
    if table.len() == 0 {
        table
    } else if size + 1 > SAMPLES_PER_WORD * table.len() {
        spec_halve_all(spec_bump_all(table, hash))
    } else {
        spec_bump_all(table, hash)
    }
}

/// The sample counter after one increment was recorded.
pub open spec fn spec_increment_size(table: Seq<u64>, size: u64) -> u64 {
    if table.len() == 0 {
        size
    } else if size + 1 > SAMPLES_PER_WORD * table.len() {
        0
    } else {
        (size + 1) as u64
    }
}

/// Whether `n` is a power of two: it has exactly one bit set.
pub open spec fn spec_is_power_of_two(n: u32) -> bool {
    n != 0 && n & ((n - 1) as u32) == 0
}

/// The number of words of the table made for a requested capacity: the
/// capacity, 128 in place of zero, held under the platform's limit and
/// rounded up to a power of two.
pub open spec fn spec_table_len_for(capacity: u32) -> u32 {
    let wanted = if capacity == 0 {
        128u32
    } else if capacity > spec_max_table_len() {
        spec_max_table_len()
    } else {
        capacity
    };
    spec_next_power_of_two(wanted, 1)
}

/// The least of `from`, `2 * from`, `4 * from`, ... that is not below `n`.
pub open spec fn spec_next_power_of_two(n: u32, from: u32) -> u32
    decreases 0x8000_0000 - from,
{
    if from >= n || from == 0 || from >= 0x4000_0000 {
        from
    } else {
        spec_next_power_of_two(n, (from * 2) as u32)
    }
}

/// The least power of two that is not below `n`, for `n` up to 2^30.
pub fn next_power_of_two(n: u32) -> (power: u32)
    requires
        n <= 0x4000_0000,
    ensures
        power == spec_next_power_of_two(n, 1),
        spec_is_power_of_two(power),
        n <= power <= 0x4000_0000,
        power / 2 < n || power == 1,
{
    let mut power: u32 = 1;
    assert(1u32 & ((1u32 - 1) as u32) == 0) by (bit_vector);
    while power < n
        invariant
            n <= 0x4000_0000,
            1 <= power <= 0x4000_0000,
            spec_is_power_of_two(power),
            power / 2 < n || power == 1,
            spec_next_power_of_two(n, power) == spec_next_power_of_two(n, 1),
        decreases 0x8000_0000 - power,
    {
        assert(power <= 0x2000_0000 && (power * 2) as u32 != 0 && ((power * 2) as u32) & ((
        power * 2 - 1) as u32) == 0) by (bit_vector)
            requires
                power != 0,
                power & ((power - 1) as u32) == 0,
                power < 0x4000_0000,
        ;
        power = power * 2;
    }
    power
}

pub struct FrequencySketch {
    sample_size: u64,
    table_mask: u64,
    table: Vec<u64>,
    size: u64,
}

impl FrequencySketch {
    /// The words of the table.
    pub closed spec fn table(&self) -> Seq<u64> {
        self.table@
    }

    /// The number of increments recorded since the counters were last
    /// halved.
    pub closed spec fn sample_count(&self) -> u64 {
        self.size
    }

    /// The table is empty or has a power-of-two number of words within the
    /// platform's limit, and the sample counter is within its threshold.
    pub closed spec fn wf(&self) -> bool {
        &&& self.table@.len() <= 0x4000_0000
        &&& self.table@.len() > 0 ==> {
            &&& spec_is_power_of_two(self.table@.len() as u32)
            &&& self.table_mask == self.table@.len() - 1
            &&& self.sample_size == SAMPLES_PER_WORD * self.table@.len()
            &&& self.size <= self.sample_size
        }
    }

    /// A sketch without a table: it records nothing and estimates zero.
    pub fn new() -> (sketch: Self)
        ensures
            sketch.wf(),
            sketch.table().len() == 0,
            sketch.sample_count() == 0,
    {
        FrequencySketch { sample_size: 0, table_mask: 0, table: Vec::new(), size: 0 }
    }

    /// The number of words of the table.
    pub fn table_len(&self) -> (len: usize)
        ensures
            len == self.table().len(),
    {
        self.table.len()
    }

    /// The number of words of the table made for a requested capacity.
    pub fn table_len_for(capacity: u32) -> (len: u32)
        ensures
            len == spec_table_len_for(capacity),
            spec_is_power_of_two(len),
            len <= 0x4000_0000,
    {
        let limit: u32 = if usize::MAX > 0xFFFF_FFFF {
            0x4000_0000
        } else {
            0x0100_0000
        };
        let wanted: u32 = if capacity == 0 {
            128
        } else if capacity > limit {
            limit
        } else {
            capacity
        };
        next_power_of_two(wanted)
    }

    /// Makes sure that the table has room for `capacity` entries.  A table
    /// that is large enough is kept as it is; otherwise a zeroed table of
    /// `spec_table_len_for(capacity)` words takes its place.
    pub fn ensure_capacity(&mut self, capacity: u32)
        requires
            old(self).wf(),
        ensures
            final(self).wf(),
            old(self).table().len() >= spec_table_len_for(capacity) ==> final(self).table() == old(
                self,
            ).table() && final(self).sample_count() == old(self).sample_count(),
            old(self).table().len() < spec_table_len_for(capacity) ==> final(self).table()
                == Seq::new(spec_table_len_for(capacity) as nat, |i: int| 0u64)
                && final(self).sample_count() == 0,
    {
        let table_size: u32 = Self::table_len_for(capacity);
        if self.table.len() >= table_size as usize {
            return ;
        }
        self.table = vec![0u64; table_size as usize];
        self.table_mask = (table_size - 1) as u64;
        self.sample_size = SAMPLES_PER_WORD * (table_size as u64);
        self.size = 0;
        assert(self.table@ =~= Seq::new(table_size as nat, |i: int| 0u64));
    }

    fn seed(depth: u8) -> (seed: u64)
        ensures
            seed == spec_seed(depth),
    {
        if depth == 0 {
            0xc3a5_c85c_97cb_3127
        } else if depth == 1 {
            0xb492_b66f_be98_f273
        } else if depth == 2 {
            0x9ae1_6a3b_2f90_404f
        } else {
            0xcbf2_9ce4_8422_2325
        }
    }

    /// The word of the table that the probe with the given depth reads.
    fn index_of(&self, hash: u64, depth: u8) -> (index: usize)
        requires
            self.wf(),
            self.table@.len() > 0,
        ensures
            index == spec_index_of(hash, depth, (self.table@.len() - 1) as u64),
            index < self.table@.len(),
    {
        let seed = Self::seed(depth);
        let mixed = hash.wrapping_add(seed).wrapping_mul(seed);
        let spread = mixed.wrapping_add(mixed >> 32);
        let mask = self.table_mask;
        assert(spread & mask <= mask) by (bit_vector);
        (spread & mask) as usize
    }

    /// The counter within a word that the probe with the given depth reads.
    fn counter_index(hash: u64, depth: u8) -> (index: u8)
        requires
            depth < 4,
        ensures
            index == spec_counter_index(hash, depth),
            index < 16,
    {
        let low = hash & 3;
        assert(low << 2 <= 12) by (bit_vector)
            requires
                low == hash & 3,
        ;
        let start = (low << 2) as u8;
        start + depth
    }

    /// The value of one counter of a word.
    fn counter(word: u64, counter_index: u8) -> (count: u8)
        requires
            counter_index < 16,
        ensures
            count == spec_counter(word, counter_index),
            count <= 15,
    {
        let wide = counter_index as u64;
        assert(wide << 2 <= 60) by (bit_vector)
            requires
                wide < 16,
        ;
        let offset = wide << 2;
        assert((word >> offset) & 0xF <= 15) by (bit_vector);
        ((word >> offset) & 0xF) as u8
    }

    /// The estimated frequency of `hash`, between 0 and 15.
    pub fn frequency(&self, hash: u64) -> (frequency: u8)
        requires
            self.wf(),
        ensures
            frequency == spec_frequency(self.table(), hash),
            frequency <= 15,
    {
        reveal(spec_frequency);
        if self.table.len() == 0 {
            return 0;
        }
        let mut frequency: u8 = u8::MAX;
        let mut depth: u8 = 0;
        let ghost table = self.table@;
        while depth < 4
            invariant
                self.wf(),
                table == self.table@,
                table.len() > 0,
                depth <= 4,
                depth == 0 ==> frequency == u8::MAX,
                depth == 1 ==> frequency == spec_probe(table, hash, 0),
                depth == 2 ==> frequency == spec_min(
                    spec_probe(table, hash, 0),
                    spec_probe(table, hash, 1),
                ),
                depth == 3 ==> frequency == spec_min(
                    spec_min(spec_probe(table, hash, 0), spec_probe(table, hash, 1)),
                    spec_probe(table, hash, 2),
                ),
                depth == 4 ==> frequency == spec_frequency(table, hash),
                depth > 0 ==> frequency <= 15,
            decreases 4 - depth,
        {
            reveal(spec_frequency);
            let index = self.index_of(hash, depth);
            let count = Self::counter(self.table[index], Self::counter_index(hash, depth));
            if count < frequency {
                frequency = count;
            }
            depth = depth + 1;
        }
        frequency
    }

    /// Increments one counter of one word, unless it is at 15.
    fn increment_at(&mut self, table_index: usize, counter_index: u8)
        requires
            table_index < old(self).table@.len(),
            counter_index < 16,
        ensures
            final(self).table@ == old(self).table@.update(
                table_index as int,
                spec_bump(old(self).table@[table_index as int], counter_index),
            ),
            final(self).sample_size == old(self).sample_size,
            final(self).table_mask == old(self).table_mask,
            final(self).size == old(self).size,
    {
        let word = self.table[table_index];
        if Self::counter(word, counter_index) != 15 {
            let wide = counter_index as u64;
            assert(wide << 2 <= 60) by (bit_vector)
                requires
                    wide < 16,
            ;
            let offset = wide << 2;
            assert(((word >> offset) & 0xF) != 15 ==> word <= 0xFFFF_FFFF_FFFF_FFFF - (1u64
                << offset)) by (bit_vector)
                requires
                    offset <= 60,
            ;
            self.table.set(table_index, word + (1u64 << offset));
        } else {
            assert(self.table@ =~= old(self).table@.update(table_index as int, word));
        }
    }

    /// Halves every counter of the table and starts a new sample period.
    fn reset(&mut self)
        ensures
            final(self).table@ == spec_halve_all(old(self).table@),
            final(self).size == 0,
            final(self).sample_size == old(self).sample_size,
            final(self).table_mask == old(self).table_mask,
    {
        let mut i: usize = 0;
        let ghost before = self.table@;
        while i < self.table.len()
            invariant
                i <= self.table@.len(),
                self.table@.len() == before.len(),
                forall|j: int| 0 <= j < i ==> self.table@[j] == spec_halve(before[j]),
                forall|j: int| i <= j < before.len() ==> self.table@[j] == before[j],
                self.sample_size == old(self).sample_size,
                self.table_mask == old(self).table_mask,
            decreases self.table@.len() - i,
        {
            let word = self.table[i];
            self.table.set(i, (word >> 1) & RESET_MASK);
            i = i + 1;
        }
        self.size = 0;
        assert(self.table@ =~= spec_halve_all(before));
    }

    /// Records one occurrence of `hash`: each of its four counters below 15
    /// is incremented.  When the sample counter then exceeds ten times the
    /// number of words, every counter is halved and the sample counter
    /// starts again at zero.  A sketch without a table records nothing.
    pub fn increment(&mut self, hash: u64)
        requires
            old(self).wf(),
        ensures
            final(self).wf(),
            final(self).table() == spec_increment_table(
                old(self).table(),
                old(self).sample_count(),
                hash,
            ),
            final(self).sample_count() == spec_increment_size(
                old(self).table(),
                old(self).sample_count(),
            ),
            final(self).table().len() == old(self).table().len(),
    {
        if self.table.len() == 0 {
            return ;
        }
        let ghost before = self.table@;
        let mut depth: u8 = 0;
        while depth < 4
            invariant
                self.wf(),
                self.table@.len() == before.len(),
                before.len() > 0,
                depth <= 4,
                self.size == old(self).size,
                depth == 0 ==> self.table@ == before,
                depth == 1 ==> self.table@ == spec_bump_probe(before, hash, 0),
                depth == 2 ==> self.table@ == spec_bump_probe(
                    spec_bump_probe(before, hash, 0),
                    hash,
                    1,
                ),
                depth == 3 ==> self.table@ == spec_bump_probe(
                    spec_bump_probe(spec_bump_probe(before, hash, 0), hash, 1),
                    hash,
                    2,
                ),
                depth == 4 ==> self.table@ == spec_bump_all(before, hash),
            decreases 4 - depth,
        {
            let index = self.index_of(hash, depth);
            self.increment_at(index, Self::counter_index(hash, depth));
            depth = depth + 1;
        }
        self.size = self.size + 1;
        if self.size > self.sample_size {
            self.reset();
        }
    }
}

impl Default for FrequencySketch {
    fn default() -> (sketch: Self)
        ensures
            sketch.wf(),
            sketch.table().len() == 0,
            sketch.sample_count() == 0,
    {
        FrequencySketch::new()
    }
}

/// Incrementing a counter raises it by one, up to 15, and leaves the other
/// counters of the word as they were.
pub proof fn lemma_bump_counter(word: u64, counter_index: u8, other: u8)
    requires
        counter_index < 16,
        other < 16,
    ensures
        spec_counter(word, counter_index) < 15 ==> spec_counter(
            spec_bump(word, counter_index),
            counter_index,
        ) == spec_counter(word, counter_index) + 1,
        spec_counter(word, counter_index) == 15 ==> spec_bump(word, counter_index) == word,
        other != counter_index ==> spec_counter(spec_bump(word, counter_index), other)
            == spec_counter(word, other),
{
    let a = (counter_index as u64) << 2;
    let b = (other as u64) << 2;
    let ci = counter_index as u64;
    let oi = other as u64;
    assert(a <= 60 && b <= 60 && (ci != oi ==> a != b) && a % 4 == 0 && b % 4 == 0) by (bit_vector)
        requires
            a == ci << 2,
            b == oi << 2,
            ci < 16,
            oi < 16,
    ;
    assert(((word >> a) & 0xF) != 15 ==> word <= 0xFFFF_FFFF_FFFF_FFFF - (1u64 << a)) by (bit_vector)
        requires
            a <= 60,
    ;
    assert(((word >> a) & 0xF) != 15 ==> (((word + (1u64 << a)) as u64 >> a) & 0xF) == ((word >> a)
        & 0xF) + 1) by (bit_vector)
        requires
            a <= 60,
            word <= 0xFFFF_FFFF_FFFF_FFFF - (1u64 << a) || ((word >> a) & 0xF) == 15,
    ;
    assert(((word >> a) & 0xF) != 15 && a != b ==> (((word + (1u64 << a)) as u64 >> b) & 0xF) == ((
    word >> b) & 0xF)) by (bit_vector)
        requires
            a <= 60,
            b <= 60,
            a % 4 == 0,
            b % 4 == 0,
            word <= 0xFFFF_FFFF_FFFF_FFFF - (1u64 << a) || ((word >> a) & 0xF) == 15,
    ;
    assert(((word >> a) & 0xF) <= 15) by (bit_vector);
    assert(((word >> b) & 0xF) <= 15) by (bit_vector);
}

/// Halving a word halves each of its counters.
pub proof fn lemma_halve_counter(word: u64, counter_index: u8)
    requires
        counter_index < 16,
    ensures
        spec_counter(spec_halve(word), counter_index) == spec_counter(word, counter_index) / 2,
{
    let a = (counter_index as u64) << 2;
    let ci = counter_index as u64;
    assert(a <= 60 && a % 4 == 0) by (bit_vector)
        requires
            a == ci << 2,
            ci < 16,
    ;
    assert(((((word >> 1) & 0x7777_7777_7777_7777u64) >> a) & 0xF) == ((word >> a) & 0xF) / 2)
        by (bit_vector)
        requires
            a <= 60,
            a % 4 == 0,
    ;
    assert(((word >> a) & 0xF) <= 15) by (bit_vector);
}

/// The estimated frequency of any hash is at most 15, and zero for a sketch
/// without a table.
pub proof fn lemma_frequency_bounds(table: Seq<u64>, hash: u64)
    ensures
        spec_frequency(table, hash) <= 15,
        table.len() == 0 ==> spec_frequency(table, hash) == 0,
{
    reveal(spec_frequency);
    if table.len() > 0 {
        let word = table[spec_index_of(hash, 0, (table.len() - 1) as u64) as int];
        let ci = spec_counter_index(hash, 0) as u64;
        assert(((word >> (ci << 2)) & 0xF) <= 15) by (bit_vector);
    }
}

} // verus!
