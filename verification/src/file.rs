use vstd::prelude::*;

use crate::error::ScatterSendError;
use crate::mapping::{mapping_bytes, readable_bytes, with_range_written, write_segment};
use crate::segment::{num_segments, seg_end, seg_index_of, seg_start, segments, Segment};
use crate::utf8::{check_utf8, is_utf8};

verus! {

/// The descriptor of a scattered file: the content key the store assigned to
/// its bytes, its display name, and its exact byte size. It is the one
/// artifact a sender hands to a receiver.
#[derive(Clone, Debug)]
pub struct File {
    pub hkey: String,
    pub name: String,
    pub size: u64,
}

/// What ps_str's lossy UTF-8 decoding makes of a byte sequence.
pub uninterp spec fn utf8_decoded(bytes: Seq<u8>) -> Seq<char>;

/// Relies on ps_str::Utf8Encoder::to_utf8_string: a lossy UTF-8 decoding whose
/// result depends on the bytes alone; valid UTF-8 runs pass through unchanged,
/// so a plain ASCII name decodes to itself, and no bytes yield no characters.
#[verifier::external_body]
fn decode_utf8_name(bytes: &Vec<u8>) -> (r: String)
    ensures
        r@ == utf8_decoded(bytes@),
        bytes@.len() == 0 ==> r@.len() == 0,
        (forall|i: int| 0 <= i < bytes@.len() ==> bytes@[i] < 0x80) ==> r@ == bytes@.map_values(
            |b: u8| b as char,
        ),
{
    ps_str::Utf8Encoder::to_utf8_string(bytes)
}

/// All of the first `k` parts have exactly their segment's length for a file
/// of `size` bytes.
pub open spec fn parts_fit_upto(parts: Seq<Vec<u8>>, size: int, k: int) -> bool {
    forall|j: int|
        0 <= j < k ==> (#[trigger] parts[j])@.len() == seg_end(size, j) - seg_start(j)
}

impl File {
    /// Builds the descriptor of a scattered file from the name component of
    /// its path, its read-only mapping, and the content key the store returned
    /// for the mapped bytes. A path without a name component, or one whose
    /// name bytes are not well-formed UTF-8, is rejected as `InvalidPath`;
    /// the descriptor's size is the mapped byte count exactly.
    pub fn scatter_mapped(
        name_bytes: Option<&Vec<u8>>,
        mapping: &ps_mmap::ReadableMemoryMap,
        hkey: String,
    ) -> (r: Result<File, ScatterSendError>)
        ensures
            r is Ok <==> (name_bytes is Some && is_utf8(name_bytes->Some_0@)),
            r is Err ==> r == Err::<File, ScatterSendError>(ScatterSendError::InvalidPath),
            r is Ok ==> {
                let f = r->Ok_0;
                &&& f.hkey == hkey
                &&& f.name@ == utf8_decoded(name_bytes->Some_0@)
                &&& f.size == readable_bytes(*mapping).len()
            },
    {
        let bytes = match name_bytes {
            Some(bytes) => bytes,
            None => {
                return Err(ScatterSendError::InvalidPath);
            },
        };
        if !check_utf8(bytes) {
            return Err(ScatterSendError::InvalidPath);
        }
        let name = decode_utf8_name(bytes);
        let size_usize = crate::mapping::readable_len(mapping);
        let size: u64 = size_usize as u64;
        Ok(File { hkey, name, size })
    }

    /// Checks that the descriptor's size is addressable on this platform and
    /// partitions `[0, size)` into the segments to resolve.
    pub fn collect_plan(&self) -> (r: Result<Vec<Segment>, ScatterSendError>)
        ensures
            r is Ok <==> self.size <= usize::MAX,
            r is Err ==> r == Err::<Vec<Segment>, ScatterSendError>(ScatterSendError::SizeOverflow),
            r is Ok ==> {
                let segs = r->Ok_0;
                &&& segs@.len() == num_segments(self.size as int)
                &&& forall|i: int|
                    0 <= i < segs@.len() ==> (#[trigger] segs@[i]).is_segment_of(
                        self.size as int,
                        i,
                    )
            },
    {
        if self.size > usize::MAX as u64 {
            return Err(ScatterSendError::SizeOverflow);
        }
        Ok(segments(self.size as usize))
    }

    /// Copies each resolved segment, in order, into its byte range of the
    /// destination mapping. It stops at the first part whose length differs
    /// from its segment's, reporting `SizeMismatch`; the segments written
    /// before that point stay written and the rest of the mapping stays as it
    /// was — a partial, non-atomic outcome. Callers that need atomicity must
    /// stage into a scratch file and rename on success themselves.
    pub fn collect_segments(
        &self,
        m: &mut ps_mmap::WritableMemoryMap,
        parts: &Vec<Vec<u8>>,
    ) -> (r: Result<(), ScatterSendError>)
        requires
            mapping_bytes(*old(m)).len() == self.size,
            self.size <= usize::MAX,
            parts@.len() == num_segments(self.size as int),
        ensures
            mapping_bytes(*final(m)).len() == self.size,
            r is Ok <==> parts_fit_upto(parts@, self.size as int, parts@.len() as int),
            r is Err ==> r == Err::<(), ScatterSendError>(ScatterSendError::SizeMismatch),
            forall|j: int|
                0 <= j < parts@.len() && parts_fit_upto(parts@, self.size as int, j + 1)
                    ==> #[trigger] mapping_bytes(*final(m)).subrange(
                    seg_start(j),
                    seg_end(self.size as int, j),
                ) == parts@[j]@,
    {
        let ghost size_int = self.size as int;
        proof {
            crate::segment::lemma_segmentation_coverage(size_int);
        }
        let segs = segments(self.size as usize);
        let n = segs.len();
        let mut i: usize = 0;
        while i < n
            invariant
                0 <= i <= n,
                size_int == self.size as int,
                n == num_segments(self.size as int),
                self.size <= usize::MAX,
                parts@.len() == n,
                segs@.len() == n,
                forall|k: int|
                    0 <= k < n ==> (#[trigger] segs@[k]).is_segment_of(self.size as int, k),
                forall|k: int|
                    0 <= k < n ==> 0 <= #[trigger] seg_start(k) < seg_end(self.size as int, k)
                        <= self.size,
                mapping_bytes(*m).len() == self.size,
                parts_fit_upto(parts@, self.size as int, i as int),
                forall|j: int|
                    0 <= j < i ==> #[trigger] mapping_bytes(*m).subrange(
                        seg_start(j),
                        seg_end(self.size as int, j),
                    ) == parts@[j]@,
            decreases n - i,
        {
            proof {
                crate::segment::lemma_segmentation_coverage(size_int);
            }
            let seg = segs[i];
            let part = &parts[i];
            if part.len() != seg.end - seg.start {
                proof {
                    let ii = i as int;
                    assert(segs@[ii].is_segment_of(size_int, ii));
                    assert(parts@[ii]@.len() != seg_end(size_int, ii) - seg_start(ii));
                    assert(!parts_fit_upto(parts@, size_int, n as int)) by {
                        if parts_fit_upto(parts@, size_int, n as int) {
                            assert(parts@[ii]@.len() == seg_end(size_int, ii) - seg_start(ii));
                        }
                    }
                    assert forall|j: int|
                        0 <= j < parts@.len() && parts_fit_upto(parts@, size_int, j + 1)
                            implies #[trigger] mapping_bytes(*m).subrange(
                            seg_start(j),
                            seg_end(size_int, j),
                        ) == parts@[j]@ by {
                        if j >= ii {
                            assert(parts@[ii]@.len() == seg_end(size_int, ii) - seg_start(ii));
                        }
                        assert(j < ii);
                    }
                }
                return Err(ScatterSendError::SizeMismatch);
            }
            let ghost before = mapping_bytes(*m);
            let res = write_segment(m, seg, part);
            proof {
                assert(res is Ok);
                assert(mapping_bytes(*m) == with_range_written(
                    before,
                    seg.start as int,
                    parts@[i as int]@,
                ));
                crate::mapping::lemma_write_sets_range(before, seg.start as int, parts@[i as int]@);
                assert forall|j: int| 0 <= j < i + 1 implies #[trigger] mapping_bytes(
                    *m,
                ).subrange(seg_start(j), seg_end(size_int, j)) == parts@[j]@ by {
                    if j < i {
                        crate::mapping::lemma_write_preserves_outside(
                            before,
                            seg.start as int,
                            parts@[i as int]@,
                            seg_start(j),
                            seg_end(size_int, j),
                        );
                    }
                }
            }
            i = i + 1;
        }
        Ok(())
    }
}

/// Law: round-trip identity of reconstruction. A destination that has
/// `content`'s length and holds, for every segment, exactly that segment's
/// slice of `content` is byte-identical to `content`. A reconstruction whose
/// resolved parts are the segment slices of the scattered bytes — which is
/// what a correct content store returns for the descriptor's key — therefore
/// reproduces those bytes exactly, for any length, zero included.
pub proof fn lemma_reconstruction_identity(content: Seq<u8>, dest: Seq<u8>)
    requires
        dest.len() == content.len(),
        forall|i: int|
            0 <= i < num_segments(content.len() as int) ==> #[trigger] dest.subrange(
                seg_start(i),
                seg_end(content.len() as int, i),
            ) == content.subrange(seg_start(i), seg_end(content.len() as int, i)),
    ensures
        dest == content,
{
    let size = content.len() as int;
    crate::segment::lemma_segmentation_coverage(size);
    assert forall|k: int| 0 <= k < size implies dest[k] == content[k] by {
        let i = seg_index_of(k);
        let a = seg_start(i);
        let b = seg_end(size, i);
        assert(a <= k < b);
        assert(dest.subrange(a, b) == content.subrange(a, b));
        assert(dest.subrange(a, b)[k - a] == dest[k]);
        assert(content.subrange(a, b)[k - a] == content[k]);
    }
    assert(dest =~= content);
}

} // verus!
