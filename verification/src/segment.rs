use vstd::prelude::*;

verus! {

/// Fixed size of a segment, the unit of concurrent resolution and write.
pub const SEGMENT_SIZE: usize = 1024 * 1024;

/// A contiguous byte range `[start, end)` of a file's total span.
#[derive(Clone, Copy, Debug, PartialEq, Eq, Structural)]
pub struct Segment {
    pub start: usize,
    pub end: usize,
}

/// How many segments partition a file of `size` bytes: `ceil(size / SEGMENT_SIZE)`.
pub open spec fn num_segments(size: int) -> int {
    (size + SEGMENT_SIZE - 1) / (SEGMENT_SIZE as int)
}

/// The index of the segment that byte offset `off` falls into.
pub open spec fn seg_index_of(off: int) -> int {
    off / (SEGMENT_SIZE as int)
}

/// Where segment `i` begins.
pub open spec fn seg_start(i: int) -> int {
    i * (SEGMENT_SIZE as int)
}

/// Where segment `i` of a file of `size` bytes ends: one full segment past its
/// start, clipped to `size`.
pub open spec fn seg_end(size: int, i: int) -> int {
    if seg_start(i) + SEGMENT_SIZE <= size {
        seg_start(i) + (SEGMENT_SIZE as int)
    } else {
        size
    }
}

impl Segment {
    /// Whether this is segment `i` of a file of `size` bytes.
    pub open spec fn is_segment_of(self, size: int, i: int) -> bool {
        self.start == seg_start(i) && self.end == seg_end(size, i)
    }
}

/// Partitions `[0, size)` into fixed-size segments `[i * SEGMENT_SIZE,
/// min((i + 1) * SEGMENT_SIZE, size))`. The last segment is shorter than
/// `SEGMENT_SIZE` whenever `size` is not a multiple of it; a size of zero
/// yields no segments.
pub fn segments(size: usize) -> (segs: Vec<Segment>)
    ensures
        segs@.len() == num_segments(size as int),
        forall|i: int|
            0 <= i < segs@.len() ==> (#[trigger] segs@[i]).is_segment_of(size as int, i),
{
    let count: usize = size / SEGMENT_SIZE + if size % SEGMENT_SIZE != 0 {
        1
    } else {
        0
    };
    assert(count == num_segments(size as int));
    let mut segs: Vec<Segment> = Vec::new();
    let mut i: usize = 0;
    while i < count
        invariant
            0 <= i <= count,
            count == num_segments(size as int),
            count >= 1 ==> seg_start(count - 1) < size,
            segs@.len() == i,
            forall|j: int|
                0 <= j < i ==> (#[trigger] segs@[j]).is_segment_of(size as int, j),
        decreases count - i,
    {
        let start: usize = i * SEGMENT_SIZE;
        let end: usize = if size - start < SEGMENT_SIZE {
            size
        } else {
            start + SEGMENT_SIZE
        };
        segs.push(Segment { start, end });
        i = i + 1;
    }
    segs
}

/// Law: for any `size`, the segment ranges are pairwise disjoint and strictly
/// increasing, every segment is non-empty and lies within `[0, size)`, every
/// segment except possibly the last has length exactly `SEGMENT_SIZE`, and
/// every byte offset below `size` falls into exactly one segment.
pub proof fn lemma_segmentation_coverage(size: int)
    requires
        size >= 0,
    ensures
        size == 0 ==> num_segments(size) == 0,
        size > 0 ==> num_segments(size) >= 1,
        forall|i: int|
            0 <= i < num_segments(size) ==> 0 <= #[trigger] seg_start(i) < seg_end(size, i)
                <= size,
        forall|i: int, j: int|
            0 <= i < j < num_segments(size) ==> #[trigger] seg_end(size, i)
                <= #[trigger] seg_start(j),
        forall|i: int|
            0 <= i < num_segments(size) - 1 ==> seg_end(size, i) - #[trigger] seg_start(i)
                == SEGMENT_SIZE,
        forall|off: int|
            0 <= off < size ==> {
                let i = #[trigger] seg_index_of(off);
                &&& 0 <= i < num_segments(size)
                &&& seg_start(i) <= off < seg_end(size, i)
            },
{
    assert forall|i: int| 0 <= i < num_segments(size) implies 0 <= #[trigger] seg_start(i)
        < seg_end(size, i) <= size by {
        lemma_seg_start_lt_size(size, i);
    }
    assert forall|i: int, j: int| 0 <= i < j < num_segments(size) implies #[trigger] seg_end(
        size,
        i,
    ) <= #[trigger] seg_start(j) by {
        let s = SEGMENT_SIZE as int;
        assert(i * s + s <= j * s) by (nonlinear_arith)
            requires
                i < j,
                s > 0,
        ;
        assert(seg_start(i) == i * s && seg_start(j) == j * s);
    }
    assert forall|off: int| 0 <= off < size implies {
        let i = #[trigger] seg_index_of(off);
        &&& 0 <= i < num_segments(size)
        &&& seg_start(i) <= off < seg_end(size, i)
    } by {
        let s = SEGMENT_SIZE as int;
        let i = seg_index_of(off);
        vstd::arithmetic::div_mod::lemma_fundamental_div_mod(off, s);
        vstd::arithmetic::div_mod::lemma_mod_bound(off, s);
        assert(seg_start(i) == off - off % s);
        assert(seg_start(i) <= off < seg_start(i) + s);
        lemma_num_segments_covers(size, i);
    }
}

/// Every segment index below the segment count starts strictly below `size`.
proof fn lemma_seg_start_lt_size(size: int, i: int)
    requires
        size >= 0,
        0 <= i < num_segments(size),
    ensures
        seg_start(i) < size,
{
    let s = SEGMENT_SIZE as int;
    assert(i <= num_segments(size) - 1);
    let n = num_segments(size);
    assert(i * s <= (n - 1) * s) by (nonlinear_arith)
        requires
            i <= n - 1,
            s > 0,
    ;
    assert(seg_start(i) == i * s);
    assert((n - 1) * s < size) by {
        vstd::arithmetic::div_mod::lemma_fundamental_div_mod(size + s - 1, s);
        assert((n - 1) * s == n * s - s) by (nonlinear_arith);
    }
}

/// An index whose segment starts below `size` is below the segment count.
proof fn lemma_num_segments_covers(size: int, i: int)
    requires
        i >= 0,
        seg_start(i) < size,
    ensures
        i < num_segments(size),
{
    let s = SEGMENT_SIZE as int;
    if i >= num_segments(size) {
        let n = num_segments(size);
        vstd::arithmetic::div_mod::lemma_fundamental_div_mod(size + s - 1, s);
        vstd::arithmetic::div_mod::lemma_mod_bound(size + s - 1, s);
        assert(n * s >= size);
        assert(i * s >= n * s) by (nonlinear_arith)
            requires
                i >= n,
                s > 0,
        ;
        assert(seg_start(i) == i * s);
    }
}

} // verus!
