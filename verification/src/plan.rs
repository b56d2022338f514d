//! The chunk planner: splitting an object of a known size into
//! non-overlapping, contiguous byte ranges of a fixed chunk size.

use vstd::prelude::*;
use vstd::arithmetic::mul::{
    lemma_mul_basics,
    lemma_mul_inequality,
    lemma_mul_is_distributive_add_other_way,
};

verus! {

/// The default chunk size for range reads, in bytes.
pub const DEFAULT_CHUNK_SIZE: usize = 1024 * 1024 * 128;

/// One inclusive byte range of an object. Produced only by [`plan`];
/// ranges of one plan never overlap and together cover the object.
#[derive(Clone, Copy, Debug, PartialEq, Eq, Structural)]
pub struct ByteRange {
    pub start: usize,
    pub end: usize,
}

impl ByteRange {
    /// The number of bytes the range spans.
    pub open spec fn spec_len(self) -> int {
        self.end - self.start + 1
    }

    /// The number of bytes the range spans.
    pub fn len(&self) -> (r: usize)
        requires
            self.start <= self.end,
            self.end - self.start < usize::MAX,
        ensures
            r == self.spec_len(),
    {
        self.end - self.start + 1
    }
}

/// What it means for `ranges` to be the chunk plan for an object of
/// `total` bytes read in chunks of `chunk` bytes: range `i` starts at
/// `i * chunk` and ends just before the next multiple of `chunk`, clipped
/// to the object, and there are exactly enough ranges to reach `total`.
pub open spec fn is_plan(ranges: Seq<ByteRange>, total: int, chunk: int) -> bool {
    &&& (total == 0 ==> ranges.len() == 0)
    &&& (total > 0 ==> {
        &&& ranges.len() >= 1
        &&& (ranges.len() - 1) * chunk < total <= ranges.len() * chunk
    })
    &&& forall|i: int|
        0 <= i < ranges.len() ==> {
            &&& (#[trigger] ranges[i]).start == i * chunk
            &&& ranges[i].end + 1 == if (i + 1) * chunk <= total {
                (i + 1) * chunk
            } else {
                total
            }
        }
}

/// Produce the chunk plan for an object of `total_size` bytes, read in
/// chunks of `chunk_size` bytes. An empty object yields an empty plan.
pub fn plan(total_size: usize, chunk_size: usize) -> (r: Vec<ByteRange>)
    requires
        chunk_size >= 1,
    ensures
        is_plan(r@, total_size as int, chunk_size as int),
{
    let mut ranges: Vec<ByteRange> = Vec::new();
    let mut offset: usize = 0;
    let ghost total = total_size as int;
    let ghost chunk = chunk_size as int;
    proof {
        lemma_mul_basics(chunk);
    }
    while offset < total_size
        invariant
            total == total_size as int,
            chunk == chunk_size as int,
            chunk >= 1,
            offset <= total_size,
            offset == ranges@.len() * chunk || (offset == total_size && total > 0
                && (ranges@.len() - 1) * chunk < total <= ranges@.len() * chunk),
            total == 0 ==> ranges@.len() == 0,
            forall|i: int|
                0 <= i < ranges@.len() ==> {
                    &&& (#[trigger] ranges@[i]).start == i * chunk
                    &&& ranges@[i].end + 1 == if (i + 1) * chunk <= total {
                        (i + 1) * chunk
                    } else {
                        total
                    }
                },
        decreases total_size - offset,
    {
        let ghost n = ranges@.len() as int;
        proof {
            // Reaching the loop body means offset < total, so the
            // second disjunct of the offset invariant cannot hold.
            assert(offset == n * chunk);
            lemma_mul_is_distributive_add_other_way(chunk, n, 1);
            assert((n + 1) * chunk == n * chunk + chunk);
        }
        let len_left = total_size - offset;
        if chunk_size < len_left {
            ranges.push(ByteRange { start: offset, end: offset + chunk_size - 1 });
            offset = offset + chunk_size;
        } else {
            ranges.push(ByteRange { start: offset, end: total_size - 1 });
            offset = total_size;
            proof {
                assert((ranges@.len() - 1) * chunk == n * chunk);
            }
        }
    }
    proof {
        lemma_mul_basics(chunk);
        if total > 0 && offset == ranges@.len() * chunk {
            if ranges@.len() == 0 {
                assert(ranges@.len() * chunk == 0);
            }
            lemma_mul_is_distributive_add_other_way(chunk, ranges@.len() - 1, 1);
            assert((ranges@.len() - 1) * chunk + chunk == ranges@.len() * chunk);
        }
    }
    ranges
}

/// The ranges of a plan are pairwise disjoint: an earlier range ends
/// strictly before a later one starts.
pub proof fn lemma_plan_disjoint(ranges: Seq<ByteRange>, total: int, chunk: int)
    requires
        chunk >= 1,
        total >= 0,
        is_plan(ranges, total, chunk),
    ensures
        forall|i: int, j: int|
            0 <= i < j < ranges.len() ==> (#[trigger] ranges[i]).end < (#[trigger] ranges[j]).start,
{
    assert forall|i: int, j: int|
        0 <= i < j < ranges.len() implies (#[trigger] ranges[i]).end < (
    #[trigger] ranges[j]).start by {
        lemma_mul_inequality(i + 1, j, chunk);
        assert(ranges[i].end + 1 <= (i + 1) * chunk);
        assert((i + 1) * chunk <= j * chunk);
    }
}

/// The ranges of a plan are contiguous: each range starts right after
/// its predecessor ends, and the first range starts at byte zero.
pub proof fn lemma_plan_contiguous(ranges: Seq<ByteRange>, total: int, chunk: int)
    requires
        chunk >= 1,
        total >= 0,
        is_plan(ranges, total, chunk),
    ensures
        ranges.len() > 0 ==> ranges[0].start == 0,
        forall|i: int|
            0 <= i < ranges.len() - 1 ==> (#[trigger] ranges[i]).end + 1 == ranges[i + 1].start,
{
    assert forall|i: int|
        0 <= i < ranges.len() - 1 implies (#[trigger] ranges[i]).end + 1 == ranges[i
        + 1].start by {
        assert(total > 0);
        lemma_mul_inequality(i + 1, ranges.len() - 1, chunk);
        assert((i + 1) * chunk <= (ranges.len() - 1) * chunk);
        assert((ranges.len() - 1) * chunk < total);
    }
}

/// Whether byte offset `off` lies inside some range of `ranges`.
pub open spec fn covered_by(ranges: Seq<ByteRange>, off: int) -> bool {
    exists|i: int| 0 <= i < ranges.len() && (#[trigger] ranges[i]).start <= off <= ranges[i].end
}

/// The union of the ranges of a plan is exactly `[0, total)`: every byte
/// of the object lies in some range, and every range lies in the object.
pub proof fn lemma_plan_covers(ranges: Seq<ByteRange>, total: int, chunk: int)
    requires
        chunk >= 1,
        total >= 0,
        is_plan(ranges, total, chunk),
    ensures
        forall|i: int|
            0 <= i < ranges.len() ==> (#[trigger] ranges[i]).start <= ranges[i].end < total,
        forall|off: int| 0 <= off < total ==> #[trigger] covered_by(ranges, off),
{
    assert forall|i: int|
        0 <= i < ranges.len() implies (#[trigger] ranges[i]).start <= ranges[i].end < total by {
        assert(total > 0);
        lemma_mul_is_distributive_add_other_way(chunk, i, 1);
        assert(i * chunk + chunk == (i + 1) * chunk);
        lemma_mul_inequality(i, ranges.len() - 1, chunk);
        assert(i * chunk <= (ranges.len() - 1) * chunk);
        assert((ranges.len() - 1) * chunk < total);
    }
    assert forall|off: int| 0 <= off < total implies #[trigger] covered_by(ranges, off) by {
        lemma_plan_contiguous(ranges, total, chunk);
        lemma_some_range_holds(ranges, total, chunk, off, ranges.len() as int);
    }
}

/// Helper for coverage: walking back from range `n - 1`, some range of
/// the plan contains `off` whenever `off` lies below the end of range
/// `n - 1`.
proof fn lemma_some_range_holds(ranges: Seq<ByteRange>, total: int, chunk: int, off: int, n: int)
    requires
        chunk >= 1,
        total >= 0,
        is_plan(ranges, total, chunk),
        1 <= n <= ranges.len(),
        0 <= off <= ranges[n - 1].end,
    ensures
        covered_by(ranges, off),
    decreases n,
{
    lemma_mul_basics(chunk);
    if ranges[n - 1].start <= off {
        assert(ranges[n - 1].start <= off <= ranges[n - 1].end);
    } else {
        // Range 0 starts at byte 0 <= off, so the range whose start
        // exceeds off cannot be the first one.
        assert(ranges[0].start == 0 * chunk);
        assert(n >= 2);
        assert(total > 0);
        lemma_mul_inequality(n - 1, ranges.len() - 1, chunk);
        assert((n - 1) * chunk <= (ranges.len() - 1) * chunk);
        assert((ranges.len() - 1) * chunk < total);
        assert(ranges[n - 2].end + 1 == (n - 1) * chunk);
        assert(off <= ranges[n - 2].end);
        lemma_some_range_holds(ranges, total, chunk, off, n - 1);
    }
}

} // verus!
