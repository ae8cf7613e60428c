use vstd::prelude::*;

use crate::error::ScatterSendError;
use crate::segment::Segment;

verus! {

#[verifier::external_type_specification]
#[verifier::external_body]
pub struct ExWritableMemoryMap(ps_mmap::WritableMemoryMap);

#[verifier::external_type_specification]
#[verifier::external_body]
pub struct ExReadableMemoryMap(ps_mmap::ReadableMemoryMap);

/// The bytes the writable destination mapping currently holds.
pub uninterp spec fn mapping_bytes(m: ps_mmap::WritableMemoryMap) -> Seq<u8>;

/// The bytes a read-only mapping of a source file holds.
pub uninterp spec fn readable_bytes(m: ps_mmap::ReadableMemoryMap) -> Seq<u8>;

/// `dest` with `data` written over the byte range that starts at `start`;
/// every byte outside that range keeps its value.
pub open spec fn with_range_written(dest: Seq<u8>, start: int, data: Seq<u8>) -> Seq<u8> {
    dest.subrange(0, start) + data + dest.subrange(start + data.len(), dest.len() as int)
}

/// Writing `data` at `start` leaves the destination's length unchanged and
/// puts exactly `data` at `[start, start + data.len())`.
pub proof fn lemma_write_sets_range(dest: Seq<u8>, start: int, data: Seq<u8>)
    requires
        0 <= start,
        start + data.len() <= dest.len(),
    ensures
        with_range_written(dest, start, data).len() == dest.len(),
        with_range_written(dest, start, data).subrange(start, start + data.len()) == data,
{
    let w = with_range_written(dest, start, data);
    assert(w.len() == dest.len());
    assert forall|k: int| 0 <= k < data.len() implies w.subrange(start, start + data.len())[k]
        == data[k] by {
        assert(w[start + k] == data[k]);
    }
    assert(w.subrange(start, start + data.len()) =~= data);
}

/// Writing `data` at `start` leaves every byte range disjoint from
/// `[start, start + data.len())` exactly as it was.
pub proof fn lemma_write_preserves_outside(
    dest: Seq<u8>,
    start: int,
    data: Seq<u8>,
    lo: int,
    hi: int,
)
    requires
        0 <= start,
        start + data.len() <= dest.len(),
        0 <= lo <= hi <= dest.len(),
        hi <= start || start + data.len() <= lo,
    ensures
        with_range_written(dest, start, data).subrange(lo, hi) == dest.subrange(lo, hi),
{
    let w = with_range_written(dest, start, data);
    assert forall|k: int| lo <= k < hi implies w[k] == dest[k] by {
        if k < start {
            assert(w[k] == dest.subrange(0, start)[k]);
        } else {
            assert(w[k] == dest.subrange(start + data.len(), dest.len() as int)[k - start
                - data.len()]);
        }
    }
    assert forall|k: int| 0 <= k < hi - lo implies w.subrange(lo, hi)[k] == dest.subrange(
        lo,
        hi,
    )[k] by {
        assert(w[lo + k] == dest[lo + k]);
    }
    assert(w.subrange(lo, hi) =~= dest.subrange(lo, hi));
}

/// Relies on ps_mmap::WritableMemoryMap::len: the fixed length of the mapped
/// region, unchanged for as long as the mapping lives.
#[verifier::external_body]
pub(crate) fn mapping_len(m: &ps_mmap::WritableMemoryMap) -> (n: usize)
    ensures
        n == mapping_bytes(*m).len(),
{
    m.len()
}

/// Relies on ps_mmap::ReadableMemoryMap's view of the mapped bytes: their count.
#[verifier::external_body]
pub(crate) fn readable_len(m: &ps_mmap::ReadableMemoryMap) -> (n: usize)
    ensures
        n == readable_bytes(*m).len(),
{
    AsRef::<[u8]>::as_ref(m).len()
}

/// Relies on ps_mmap::WritableMemoryMap::write: takes the mapping's write lock
/// and copies `data` over the byte range starting at `start`, leaving every
/// other byte as it was.
#[verifier::external_body]
fn write_bytes_at(m: &mut ps_mmap::WritableMemoryMap, start: usize, data: &Vec<u8>)
    requires
        start + data@.len() <= mapping_bytes(*old(m)).len(),
    ensures
        mapping_bytes(*final(m)) == with_range_written(
            mapping_bytes(*old(m)),
            start as int,
            data@,
        ),
{
    m.write()[start..start + data.len()].copy_from_slice(data);
}

/// Relies on ps_mmap::WritableMemoryMap::read: takes the mapping's read lock
/// and copies the byte range `[start, end)` out of it.
#[verifier::external_body]
fn read_bytes_at(m: &ps_mmap::WritableMemoryMap, start: usize, end: usize) -> (r: Vec<u8>)
    requires
        start <= end <= mapping_bytes(*m).len(),
    ensures
        r@ == mapping_bytes(*m).subrange(start as int, end as int),
{
    m.read()[start..end].to_vec()
}

/// Copies a resolved segment's bytes over that segment's byte range of the
/// destination mapping. A range outside the mapping, or a byte count that
/// differs from the range's length, is an integrity violation: it is reported
/// as `SizeMismatch` and never silently truncated or padded, and the mapping
/// is then left untouched.
pub fn write_segment(
    m: &mut ps_mmap::WritableMemoryMap,
    seg: Segment,
    bytes: &Vec<u8>,
) -> (r: Result<(), ScatterSendError>)
    ensures
        r is Ok <==> (seg.start <= seg.end <= mapping_bytes(*old(m)).len() && bytes@.len()
            == seg.end - seg.start),
        r is Ok ==> mapping_bytes(*final(m)) == with_range_written(
            mapping_bytes(*old(m)),
            seg.start as int,
            bytes@,
        ),
        r is Err ==> *final(m) == *old(m) && r == Err::<(), ScatterSendError>(
            ScatterSendError::SizeMismatch,
        ),
{
    let len = mapping_len(m);
    if seg.start > seg.end || seg.end > len {
        return Err(ScatterSendError::SizeMismatch);
    }
    if bytes.len() != seg.end - seg.start {
        return Err(ScatterSendError::SizeMismatch);
    }
    write_bytes_at(m, seg.start, bytes);
    Ok(())
}

/// Reads the byte range of `seg` back out of the destination mapping, or
/// `None` when the range does not lie inside the mapping.
pub fn read_segment(m: &ps_mmap::WritableMemoryMap, seg: Segment) -> (r: Option<Vec<u8>>)
    ensures
        r is Some <==> seg.start <= seg.end <= mapping_bytes(*m).len(),
        r is Some ==> r->Some_0@ == mapping_bytes(*m).subrange(seg.start as int, seg.end as int),
{
    let len = mapping_len(m);
    if seg.start > seg.end || seg.end > len {
        return None;
    }
    Some(read_bytes_at(m, seg.start, seg.end))
}

} // verus!
