//! Geometry of the slot table.
//!
//! Slots are allocated in segments that are never moved or freed while the registry
//! lives. Segment `k` holds `64 * 2^k` slots, so a table of `SEGMENTS` segments is a
//! small array and still addresses `CAPACITY` slots. The position of a slot is its
//! index in the concatenation of all segments.

use vstd::prelude::*;

verus! {

/// Number of segments a registry can install.
pub const SEGMENTS: usize = 25;

/// Number of slots in the first segment.
pub const FIRST_SEGMENT: usize = 64;

/// Total number of slots once every segment is installed: `64 * (2^25 - 1)`.
pub const CAPACITY: usize = 2147483584;

/// Number of slots in segment `k`.
pub open spec fn segment_len(k: nat) -> nat
    decreases k,
{
    if k == 0 {
        64
    } else {
        2 * segment_len((k - 1) as nat)
    }
}

/// Position of the first slot of segment `k`: the number of slots in all segments
/// before it.
pub open spec fn segment_base(k: nat) -> nat
    decreases k,
{
    if k == 0 {
        0
    } else {
        segment_base((k - 1) as nat) + segment_len((k - 1) as nat)
    }
}

/// Each segment is as large as all segments before it together, plus the first.
pub proof fn lemma_base_is_len_less_first(k: nat)
    ensures
        segment_base(k) + 64 == segment_len(k),
    decreases k,
{
    if k > 0 {
        lemma_base_is_len_less_first((k - 1) as nat);
    }
}

/// Bases grow with the segment number.
pub proof fn lemma_base_monotonic(i: nat, j: nat)
    requires
        i <= j,
    ensures
        segment_base(i) <= segment_base(j),
    decreases j,
{
    if i < j {
        lemma_base_monotonic(i, (j - 1) as nat);
    }
}

/// The table's capacity is the base of the segment one past the last.
pub proof fn lemma_capacity()
    ensures
        segment_base(SEGMENTS as nat) == CAPACITY,
        segment_len(SEGMENTS as nat) == CAPACITY + 64,
{
    reveal_with_fuel(segment_len, 26);
    assert(segment_len(25) == 2147483648);
    lemma_base_is_len_less_first(25);
}

/// Every segment of the table ends at or below the capacity.
pub proof fn lemma_segment_fits(k: nat)
    requires
        k < SEGMENTS,
    ensures
        segment_base(k) + segment_len(k) <= CAPACITY,
        segment_len(k) <= CAPACITY,
        1 <= segment_len(k),
{
    lemma_capacity();
    lemma_base_monotonic(k + 1, SEGMENTS as nat);
    lemma_base_is_len_less_first(k);
}

/// Geometry of the segment after the one that starts at `base` and holds `len` slots.
pub fn next_segment(k: usize, base: usize, len: usize) -> (next: (usize, usize))
    requires
        k < SEGMENTS,
        base == segment_base(k as nat),
        len == segment_len(k as nat),
    ensures
        next.0 == segment_base((k + 1) as nat),
        next.1 == segment_len((k + 1) as nat),
{
    proof {
        lemma_segment_fits(k as nat);
        lemma_capacity();
        lemma_base_is_len_less_first((k + 1) as nat);
    }
    (base + len, len + len)
}

/// Geometry of segment `k`: the position of its first slot and the number of its
/// slots.
pub fn segment_at(k: usize) -> (segment: (usize, usize))
    requires
        k < SEGMENTS,
    ensures
        segment.0 == segment_base(k as nat),
        segment.1 == segment_len(k as nat),
{
    let mut i: usize = 0;
    let mut base: usize = 0;
    let mut len: usize = FIRST_SEGMENT;
    while i < k
        invariant
            i <= k < SEGMENTS,
            base == segment_base(i as nat),
            len == segment_len(i as nat),
        decreases k - i,
    {
        let next = next_segment(i, base, len);
        base = next.0;
        len = next.1;
        i = i + 1;
    }
    (base, len)
}

/// `n`, or `CAPACITY` if `n` is larger.
pub open spec fn capped(n: int) -> int {
    if n <= CAPACITY {
        n
    } else {
        CAPACITY as int
    }
}

/// Adds `more` to a count that stops at `CAPACITY`.
pub fn add_capped(count: usize, more: usize) -> (sum: usize)
    requires
        count <= CAPACITY,
    ensures
        sum == capped(count + more),
{
    if more <= CAPACITY - count {
        count + more
    } else {
        CAPACITY
    }
}

} // verus!
