//! A fixed-capacity cache from position keys to compressed scores.
//!
//! Every key has exactly one slot, `key mod capacity`. A slot holds the low
//! 56 bits of the key it was last written for, together with one byte of
//! score, in a single 64-bit word. Writing a slot replaces what was there.
//!
//! The word 0, key 0 with score 0, marks an unused slot, and a lookup
//! finds nothing in an unused slot. So the score 0 cannot be stored for a
//! key whose low 56 bits are 0: every other score can, and every score
//! for every other key.
use vstd::prelude::*;

verus! {

/// Keys are compared by their low 56 bits: `KEY_LIMIT` is `2^56`.
pub const KEY_LIMIT: u64 = 0x0100_0000_0000_0000;

/// The table made by [`TranspositionTable::new`] has the first prime
/// capacity at or above `2^DEFAULT_SIZE_BITS`.
pub const DEFAULT_SIZE_BITS: usize = 23;

/// What a slot holds: the key fragment and the score stored with it. A
/// slot with key 0 and score 0 is unused.
pub struct Entry {
    pub key: u64,
    pub score: u8,
}

/// The slot content stored in a word.
pub open spec fn unpack(word: u64) -> Entry {
    Entry { key: word / 256, score: (word % 256) as u8 }
}

/// The slot of `key` in a table of `capacity` slots.
pub open spec fn slot_of(capacity: nat, key: u64) -> int {
    key as int % capacity as int
}

/// The slot holds nothing: key 0 with score 0.
pub open spec fn is_unused(entry: Entry) -> bool {
    entry.key == 0 && entry.score == 0
}

/// What a lookup of `key` finds in the given slots: the score in the
/// key's slot, if that slot is in use and was last written for a key
/// with the same low 56 bits. An unused slot is a miss for every key.
pub open spec fn found(slots: Seq<Entry>, key: u64) -> Option<u8> {
    let entry = slots[slot_of(slots.len(), key)];
    if !is_unused(entry) && entry.key == key % KEY_LIMIT {
        Some(entry.score)
    } else {
        None
    }
}

/// The slots after `score` has been stored for `key`: the key's slot is
/// replaced, the others stay.
pub open spec fn stored(slots: Seq<Entry>, key: u64, score: u8) -> Seq<Entry> {
    slots.update(slot_of(slots.len(), key), Entry { key: key % KEY_LIMIT, score })
}

/// A score that was stored for a key is found under that key, but for
/// the score 0 with a key whose low 56 bits are 0, which is how an
/// unused slot looks.
pub proof fn lemma_found_after_stored(slots: Seq<Entry>, key: u64, score: u8)
    requires
        slots.len() > 0,
    ensures
        found(stored(slots, key, score), key) == if key % KEY_LIMIT == 0 && score == 0 {
            None
        } else {
            Some(score)
        },
{
}

/// Nothing is found where every slot is unused.
pub proof fn lemma_found_in_unused(slots: Seq<Entry>, key: u64)
    requires
        unused(slots),
    ensures
        found(slots, key) is None,
{
    assert(is_unused(slots[slot_of(slots.len(), key)]));
}

/// Storing a score for a key of another slot changes nothing for this
/// key: in particular a score stored for `key` is still found after it.
pub proof fn lemma_found_after_other_stored(slots: Seq<Entry>, key: u64, other: u64, score: u8)
    requires
        slots.len() > 0,
        slot_of(slots.len(), other) != slot_of(slots.len(), key),
    ensures
        found(stored(slots, other, score), key) == found(slots, key),
{
}

/// A score stored for a key of the same slot replaces what was stored
/// there: a lookup then succeeds only for keys with the low 56 bits of
/// the last key written.
pub proof fn lemma_found_after_collision(slots: Seq<Entry>, key: u64, other: u64, score: u8)
    requires
        slots.len() > 0,
        slot_of(slots.len(), other) == slot_of(slots.len(), key),
    ensures
        found(stored(slots, other, score), key) == if other % KEY_LIMIT == key % KEY_LIMIT && !(
        key % KEY_LIMIT == 0 && score == 0) {
            Some(score)
        } else {
            None
        },
{
}

/// `n` has a divisor `d` with `lo <= d < hi` and `d * d <= n`.
pub open spec fn has_divisor(n: int, lo: int, hi: int) -> bool {
    exists|d: int| lo <= d < hi && d * d <= n && #[trigger] (n % d) == 0
}

/// `n` has no divisor from 2 up to its square root.
pub open spec fn no_small_divisor(n: int) -> bool {
    !has_divisor(n, 2, n)
}

/// `p` is the first number at or above `n` without a divisor from 2 up to
/// its square root.
pub open spec fn first_prime_from(n: int, p: int) -> bool {
    &&& n <= p
    &&& no_small_divisor(p)
    &&& forall|q: int| n <= q < p ==> !#[trigger] no_small_divisor(q)
}

/// The capacity of a table asked for with `size_bits`: the first prime at
/// or above `2^size_bits` if the machine can count that far, else
/// `2^size_bits` itself. `power` stands for `2^size_bits`.
pub open spec fn capacity_for(power: int, capacity: int) -> bool {
    if exists|p: int| power <= p <= usize::MAX && no_small_divisor(p) {
        first_prime_from(power, capacity)
    } else {
        capacity == power
    }
}

/// There are slots, and every slot is unused.
pub open spec fn unused(slots: Seq<Entry>) -> bool {
    slots.len() > 0 && forall|i: int|
        0 <= i < slots.len() ==> #[trigger] slots[i] == (Entry { key: 0, score: 0 })
}

/// The slots of a new table of the default size.
pub open spec fn default_slots(slots: Seq<Entry>) -> bool {
    unused(slots) && capacity_for((1usize << DEFAULT_SIZE_BITS) as int, slots.len() as int)
}

/// The middle of `min` and `max`, rounded down.
pub fn med(min: usize, max: usize) -> (r: usize)
    ensures
        r == (min + max) / 2,
{
    if min <= max {
        min + (max - min) / 2
    } else {
        max + (min - max) / 2
    }
}

proof fn lemma_square_monotonic(a: int, b: int)
    by (nonlinear_arith)
    requires
        0 <= a <= b,
    ensures
        a * a <= b * b,
{
}

/// Whether `n` has a divisor `d` with `d * d <= n` among `min..max`, or
/// equal to `min` where that range is empty.
pub fn has_factor(n: usize, min: usize, max: usize) -> (r: bool)
    requires
        min > 0,
    ensures
        r == has_divisor(
            n as int,
            min as int,
            if max > min {
                max as int
            } else {
                min + 1
            },
        ),
    decreases max - min,
{
    let hi: Ghost<int> = Ghost(
        if max > min {
            max as int
        } else {
            min + 1
        },
    );
    let square = min.checked_mul(min);
    let too_large = match square {
        Some(s) => s > n,
        None => true,
    };
    if too_large {
        proof {
            assert forall|d: int| min <= d < hi@ && d * d <= n implies #[trigger] (n as int % d)
                != 0 by {
                lemma_square_monotonic(min as int, d);
            }
        }
        false
    } else if max <= min || max - min <= 1 {
        proof {
            if n % min == 0 {
                assert(min <= min < hi@ && min * min <= n && (n as int % min as int) == 0);
            }
        }
        n % min == 0
    } else {
        let mid = med(min, max);
        let low = has_factor(n, min, mid);
        proof {
            if low {
                let d = choose|d: int| min <= d < mid && d * d <= n && #[trigger] (n as int % d) == 0;
                assert(min <= d < hi@ && d * d <= n && (n as int % d) == 0);
            }
        }
        if low {
            return true;
        }
        let high = has_factor(n, mid, max);
        proof {
            if high {
                let d = choose|d: int| mid <= d < max && d * d <= n && #[trigger] (n as int % d) == 0;
                assert(min <= d < hi@ && d * d <= n && (n as int % d) == 0);
            }
            if has_divisor(n as int, min as int, hi@) {
                let d = choose|d: int| min <= d < hi@ && d * d <= n && #[trigger] (n as int % d) == 0;
                if d < mid {
                    assert(min <= d < mid && d * d <= n && (n as int % d) == 0);
                } else {
                    assert(mid <= d < max && d * d <= n && (n as int % d) == 0);
                }
            }
        }
        high
    }
}

/// The first number at or above `n` without a divisor from 2 up to its
/// square root, or `None` if the machine cannot count that far.
pub fn calc_next_prime(n: usize) -> (r: Option<usize>)
    ensures
        match r {
            Some(p) => first_prime_from(n as int, p as int),
            None => forall|q: int| n <= q <= usize::MAX ==> !#[trigger] no_small_divisor(q),
        },
    decreases usize::MAX - n,
{
    let composite = has_factor(n, 2, n);
    proof {
        if n <= 2 {
            assert forall|d: int| 2 <= d < 3 && d * d <= n implies #[trigger] (n as int % d)
                != 0 by {}
        }
    }
    if !composite {
        Some(n)
    } else if n == usize::MAX {
        None
    } else {
        calc_next_prime(n + 1)
    }
}

/// A cache of scores, indexed by position key.
pub struct TranspositionTable {
    entries: Vec<u64>,
}

impl TranspositionTable {
    #[verifier::type_invariant]
    spec fn inv(&self) -> bool {
        self.entries@.len() > 0
    }

    /// The slots of the table, in order.
    pub closed spec fn view(&self) -> Seq<Entry> {
        Seq::new(self.entries@.len(), |i: int| unpack(self.entries@[i]))
    }

    /// A table of the default size with every slot unused.
    pub fn new() -> (table: Self)
        ensures
            default_slots(table@),
    {
        Self::with_size_bits(DEFAULT_SIZE_BITS)
    }

    /// A table with every slot unused, and as many slots as the first
    /// prime at or above `2^size_bits`. The slots, of eight bytes each,
    /// have to fit in the address space.
    pub fn with_size_bits(size_bits: usize) -> (table: Self)
        requires
            size_bits + 4 < usize::BITS,
        ensures
            unused(table@),
            capacity_for((1usize << size_bits) as int, table@.len() as int),
    {
        let power: usize = 1usize << size_bits;
        assert(power > 0) by (bit_vector)
            requires
                power == 1usize << size_bits,
                size_bits + 4 < usize::BITS,
        ;
        let capacity = match calc_next_prime(power) {
            Some(p) => p,
            None => power,
        };
        let entries = vec![0u64; capacity];
        TranspositionTable { entries }
    }

    /// The score stored for `key`, if the key's slot is in use and was
    /// last written for a key with the same low 56 bits.
    pub fn get(&self, key: u64) -> (score: Option<u8>)
        ensures
            score == found(self@, key),
            self@.len() > 0,
    {
        proof {
            use_type_invariant(self);
        }
        let index = (key % (self.entries.len() as u64)) as usize;
        let entry = self.entries[index];
        if entry != 0 && entry / 256 == key % KEY_LIMIT {
            Some((entry % 256) as u8)
        } else {
            None
        }
    }

    /// Stores `score` for `key` in the key's slot, whatever was there.
    /// The score 0 for a key whose low 56 bits are 0 leaves the slot
    /// unused.
    pub fn set(&mut self, key: u64, score: u8)
        ensures
            final(self)@ == stored(old(self)@, key, score),
            old(self)@.len() > 0,
    {
        proof {
            use_type_invariant(&*self);
        }
        let index = (key % (self.entries.len() as u64)) as usize;
        self.entries[index] = (key % KEY_LIMIT) * 256 + score as u64;
        proof {
            assert(final(self)@ =~= stored(old(self)@, key, score));
        }
    }

    /// Marks every slot unused. The capacity stays.
    pub fn clear(&mut self)
        ensures
            unused(final(self)@),
            final(self)@.len() == old(self)@.len(),
    {
        proof {
            use_type_invariant(&*self);
        }
        let mut i: usize = 0;
        while i < self.entries.len()
            invariant
                self.entries@.len() == old(self).entries@.len(),
                i <= self.entries@.len(),
                forall|j: int| 0 <= j < i ==> self.entries@[j] == 0,
            decreases self.entries@.len() - i,
        {
            self.entries[i] = 0;
            i += 1;
        }
    }
}

impl Default for TranspositionTable {
    fn default() -> (table: Self)
        ensures
            default_slots(table@),
    {
        Self::new()
    }
}

} // verus!
