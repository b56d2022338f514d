//! The chunked fetch engine: draining range streams, assembling chunks
//! into destination buffers, and the all-or-nothing metadata phase of a
//! batch fetch.
//!
//! The engine is transport-agnostic. The caller issues the `Head` and
//! `RangeGet` calls, in any order and with any concurrency, and feeds the
//! plain results back in; the types here decide what the results mean and
//! build the buffers. A buffer leaves an assembler only through `finish`,
//! and only once every chunk of its plan has been written, so a partially
//! filled buffer is never exposed.

use vstd::prelude::*;
use vstd::pervasive::VecAdditionalExecFns;
use vstd::arithmetic::mul::{
    lemma_mul_basics,
    lemma_mul_inequality,
    lemma_mul_is_distributive_add_other_way,
};

use crate::errors::StoreError;
use crate::meta::HeadResult;
use crate::plan::{is_plan, plan, ByteRange};

verus! {

/// A vector of `n` copies of `x`.
fn filled<T: Copy>(n: usize, x: T) -> (v: Vec<T>)
    ensures
        v@ == Seq::new(n as nat, |i: int| x),
{
    let mut v: Vec<T> = Vec::new();
    let mut k: usize = 0;
    while k < n
        invariant
            k <= n,
            v@ =~= Seq::new(k as nat, |i: int| x),
        decreases n - k,
    {
        v.push(x);
        k = k + 1;
    }
    proof {
        assert(v@ =~= Seq::new(n as nat, |i: int| x));
    }
    v
}

/// Drains one range stream. The stream may deliver its bytes in any
/// number of pieces; the buffer accepts them in order, refuses any piece
/// that would run past the promised length, and releases the bytes only
/// when exactly the promised length has arrived.
pub struct ChunkBuf {
    /// The length the range promised, `end - start + 1`.
    pub expected: usize,
    /// The bytes received so far, in order.
    pub data: Vec<u8>,
}

impl ChunkBuf {
    /// The drained bytes never exceed the promised length.
    pub open spec fn wf(self) -> bool {
        self.data@.len() <= self.expected
    }

    /// An empty buffer expecting `expected` bytes.
    pub fn new(expected: usize) -> (r: ChunkBuf)
        ensures
            r.wf(),
            r.expected == expected,
            r.data@ == Seq::<u8>::empty(),
    {
        ChunkBuf { expected, data: Vec::new() }
    }

    /// Accept the next piece of the stream. A piece that would exceed the
    /// promised length is refused whole, as a store failure, rather than
    /// truncated; the buffer is then left unchanged.
    pub fn push_piece(&mut self, piece: &[u8]) -> (r: Result<(), StoreError>)
        requires
            old(self).wf(),
        ensures
            final(self).wf(),
            final(self).expected == old(self).expected,
            r is Ok <==> old(self).data@.len() + piece@.len() <= old(self).expected,
            r is Ok ==> final(self).data@ == old(self).data@ + piece@,
            r is Err ==> final(self).data@ == old(self).data@ && r == Err::<(), StoreError>(
                StoreError::StoreUnavailable,
            ),
    {
        if piece.len() > self.expected - self.data.len() {
            return Err(StoreError::StoreUnavailable);
        }
        let ghost pre = self.data@;
        let mut k: usize = 0;
        while k < piece.len()
            invariant
                k <= piece@.len(),
                self.data@ == pre + piece@.take(k as int),
                self.expected == old(self).expected,
                pre.len() + piece@.len() <= self.expected,
            decreases piece@.len() - k,
        {
            self.data.push(piece[k]);
            proof {
                assert(pre + piece@.take(k as int) + seq![piece@[k as int]] =~= pre + piece@.take(
                    k as int + 1,
                ));
            }
            k = k + 1;
        }
        proof {
            assert(piece@.take(piece@.len() as int) =~= piece@);
        }
        Ok(())
    }

    /// Release the drained bytes. The stream must have delivered exactly
    /// the promised length; a stream that ended early is a short read and
    /// a protocol violation, never accepted silently.
    pub fn finish(self) -> (r: Result<Vec<u8>, StoreError>)
        requires
            self.wf(),
        ensures
            self.data@.len() == self.expected ==> (r matches Ok(b) && b@ == self.data@),
            self.data@.len() != self.expected ==> r == Err::<Vec<u8>, StoreError>(
                StoreError::ShortRead,
            ),
    {
        if self.data.len() == self.expected {
            Ok(self.data)
        } else {
            Err(StoreError::ShortRead)
        }
    }
}

/// Whether writing `data` as chunk `idx` of `a` is accepted: the index
/// names a range of the plan, the data is exactly as long as the range,
/// and the chunk has not been written before.
pub open spec fn write_ok(a: ObjectAssembler, idx: int, data: Seq<u8>) -> bool {
    &&& 0 <= idx < a.ranges@.len()
    &&& data.len() == a.ranges@[idx].spec_len()
    &&& !a.done@[idx]
}

/// How one accepted chunk write changes an assembler: the range's bytes
/// are replaced by `data`, every byte outside the range is kept, and the
/// chunk is marked done.
pub open spec fn chunk_written(
    pre: ObjectAssembler,
    post: ObjectAssembler,
    idx: int,
    data: Seq<u8>,
) -> bool {
    &&& post.ranges@ == pre.ranges@
    &&& post.chunk == pre.chunk
    &&& post.buf@ == pre.buf@.subrange(0, pre.ranges@[idx].start as int) + data
        + pre.buf@.subrange(pre.ranges@[idx].end + 1, pre.buf@.len() as int)
    &&& post.done@ == pre.done@.update(idx, true)
}

/// The destination buffer of one object, owned by the engine while the
/// chunks of its plan arrive, in any order. Each chunk lands in its own
/// disjoint slice of the buffer; the buffer is released only when every
/// chunk has landed.
pub struct ObjectAssembler {
    /// The destination buffer, sized exactly to the object.
    pub buf: Vec<u8>,
    /// The chunk plan for the object.
    pub ranges: Vec<ByteRange>,
    /// Which chunks of the plan have been written.
    pub done: Vec<bool>,
    /// The chunk size the plan was made with.
    pub chunk: usize,
}

impl ObjectAssembler {
    /// The assembler's plan covers its buffer, one done flag per range.
    pub open spec fn wf(self) -> bool {
        &&& self.chunk >= 1
        &&& is_plan(self.ranges@, self.buf@.len() as int, self.chunk as int)
        &&& self.done@.len() == self.ranges@.len()
    }

    /// Every chunk of the plan has been written.
    pub open spec fn complete(self) -> bool {
        forall|i: int| 0 <= i < self.done@.len() ==> self.done@[i]
    }

    /// A fresh assembler for an object of `size` bytes: a zeroed buffer
    /// sized exactly to the object, the chunk plan for it, and no chunk
    /// written yet.
    pub fn new(size: usize, chunk_size: usize) -> (r: ObjectAssembler)
        requires
            chunk_size >= 1,
        ensures
            r.wf(),
            r.chunk == chunk_size,
            r.buf@ == Seq::new(size as nat, |i: int| 0u8),
            is_plan(r.ranges@, size as int, chunk_size as int),
            forall|i: int| 0 <= i < r.done@.len() ==> !r.done@[i],
    {
        let ranges = plan(size, chunk_size);
        let done = filled(ranges.len(), false);
        let buf = filled(size, 0u8);
        ObjectAssembler { buf, ranges, done, chunk: chunk_size }
    }

    /// The number of chunks in the plan.
    pub fn num_chunks(&self) -> (r: usize)
        ensures
            r == self.ranges@.len(),
    {
        self.ranges.len()
    }

    /// The byte range of chunk `idx`.
    pub fn range_at(&self, idx: usize) -> (r: ByteRange)
        requires
            idx < self.ranges@.len(),
        ensures
            r == self.ranges@[idx as int],
    {
        self.ranges[idx]
    }

    /// Write one fully drained chunk into its slice of the buffer. The
    /// write is refused — and the assembler left unchanged — unless `data`
    /// is exactly as long as the chunk's range and the chunk is new: a
    /// write that would exceed its slice must fail rather than overflow
    /// or silently truncate.
    pub fn write_chunk(&mut self, idx: usize, data: &Vec<u8>) -> (r: Result<(), StoreError>)
        requires
            old(self).wf(),
        ensures
            final(self).wf(),
            final(self).buf@.len() == old(self).buf@.len(),
            r is Ok <==> write_ok(*old(self), idx as int, data@),
            r is Ok ==> chunk_written(*old(self), *final(self), idx as int, data@),
            r is Err ==> *final(self) == *old(self) && r == Err::<(), StoreError>(
                StoreError::StoreUnavailable,
            ),
    {
        if idx >= self.ranges.len() {
            return Err(StoreError::StoreUnavailable);
        }
        let rg = self.ranges[idx];
        let buf_len = self.buf.len();
        proof {
            lemma_range_in_buffer(*self, idx as int);
            assert(rg.end < buf_len);
        }
        let expected = rg.end - rg.start + 1;
        if data.len() != expected {
            return Err(StoreError::StoreUnavailable);
        }
        if self.done[idx] {
            return Err(StoreError::StoreUnavailable);
        }
        let ghost pre = *self;
        let mut k: usize = 0;
        while k < data.len()
            invariant
                pre.wf(),
                k <= data@.len(),
                idx < pre.ranges@.len(),
                rg == pre.ranges@[idx as int],
                data@.len() == rg.end - rg.start + 1,
                rg.end < pre.buf@.len(),
                self.ranges@ == pre.ranges@,
                self.done@ == pre.done@,
                self.chunk == pre.chunk,
                self.buf@.len() == pre.buf@.len(),
                forall|j: int| 0 <= j < rg.start ==> self.buf@[j] == pre.buf@[j],
                forall|j: int| 0 <= j < k ==> self.buf@[rg.start + j] == data@[j],
                forall|j: int|
                    rg.start + k <= j < pre.buf@.len() ==> self.buf@[j] == pre.buf@[j],
            decreases data@.len() - k,
        {
            self.buf.set(rg.start + k, data[k]);
            k = k + 1;
        }
        self.done.set(idx, true);
        proof {
            assert(self.buf@ =~= pre.buf@.subrange(0, rg.start as int) + data@ + pre.buf@.subrange(
                rg.end + 1,
                pre.buf@.len() as int,
            ));
        }
        Ok(())
    }

    /// Whether every chunk of the plan has been written.
    pub fn is_complete(&self) -> (r: bool)
        ensures
            r == self.complete(),
    {
        let mut k: usize = 0;
        while k < self.done.len()
            invariant
                k <= self.done@.len(),
                forall|i: int| 0 <= i < k ==> self.done@[i],
            decreases self.done@.len() - k,
        {
            if !self.done[k] {
                return false;
            }
            k = k + 1;
        }
        true
    }

    /// Release the buffer. The call succeeds only when every chunk has
    /// been written; otherwise the buffer is dropped with the assembler
    /// and never exposed.
    pub fn finish(self) -> (r: Result<Vec<u8>, StoreError>)
        ensures
            self.complete() ==> (r matches Ok(b) && b@ == self.buf@),
            !self.complete() ==> r == Err::<Vec<u8>, StoreError>(StoreError::PartialBatchFailure),
    {
        if self.is_complete() {
            Ok(self.buf)
        } else {
            Err(StoreError::PartialBatchFailure)
        }
    }
}

/// Each range of a well-formed assembler's plan lies inside its buffer.
proof fn lemma_range_in_buffer(a: ObjectAssembler, idx: int)
    requires
        a.wf(),
        0 <= idx < a.ranges@.len(),
    ensures
        a.ranges@[idx].start <= a.ranges@[idx].end < a.buf@.len(),
{
    let chunk = a.chunk as int;
    let total = a.buf@.len() as int;
    lemma_mul_basics(chunk);
    lemma_mul_is_distributive_add_other_way(chunk, idx, 1);
    lemma_mul_inequality(idx, a.ranges@.len() - 1, chunk);
    assert(idx * chunk <= (a.ranges@.len() - 1) * chunk);
    assert((a.ranges@.len() - 1) * chunk < total);
}

/// The destination buffers of one batch fetch, positionally aligned with
/// the requested paths. Chunks of any object arrive in any order, from
/// one flat pool of range reads; the buffers are released together, and
/// only when every chunk of every object has been written — a batch never
/// reports partial successes.
pub struct BatchAssembler {
    /// One assembler per requested object, in request order.
    pub objs: Vec<ObjectAssembler>,
}

impl BatchAssembler {
    /// Every member assembler is well-formed.
    pub open spec fn wf(self) -> bool {
        forall|i: int| 0 <= i < self.objs@.len() ==> (#[trigger] self.objs@[i]).wf()
    }

    /// Every chunk of every object has been written.
    pub open spec fn complete(self) -> bool {
        forall|i: int| 0 <= i < self.objs@.len() ==> (#[trigger] self.objs@[i]).complete()
    }

    /// Fresh assemblers for a batch of objects whose sizes the metadata
    /// phase reported, positionally aligned with `sizes`.
    pub fn new(sizes: &Vec<usize>, chunk_size: usize) -> (r: BatchAssembler)
        requires
            chunk_size >= 1,
        ensures
            r.wf(),
            r.objs@.len() == sizes@.len(),
            forall|i: int|
                0 <= i < sizes@.len() ==> {
                    &&& (#[trigger] r.objs@[i]).chunk == chunk_size
                    &&& r.objs@[i].buf@ == Seq::new(sizes@[i] as nat, |j: int| 0u8)
                    &&& forall|j: int| 0 <= j < r.objs@[i].done@.len() ==> !r.objs@[i].done@[j]
                },
    {
        let mut objs: Vec<ObjectAssembler> = Vec::new();
        let mut k: usize = 0;
        while k < sizes.len()
            invariant
                chunk_size >= 1,
                k <= sizes@.len(),
                objs@.len() == k,
                forall|i: int|
                    0 <= i < k ==> {
                        &&& (#[trigger] objs@[i]).wf()
                        &&& objs@[i].chunk == chunk_size
                        &&& objs@[i].buf@ == Seq::new(sizes@[i] as nat, |j: int| 0u8)
                        &&& forall|j: int| 0 <= j < objs@[i].done@.len() ==> !objs@[i].done@[j]
                    },
            decreases sizes@.len() - k,
        {
            objs.push(ObjectAssembler::new(sizes[k], chunk_size));
            k = k + 1;
        }
        BatchAssembler { objs }
    }

    /// The number of objects in the batch.
    pub fn num_objects(&self) -> (r: usize)
        ensures
            r == self.objs@.len(),
    {
        self.objs.len()
    }

    /// The number of chunks planned for object `obj`.
    pub fn num_chunks_of(&self, obj: usize) -> (r: usize)
        requires
            obj < self.objs@.len(),
        ensures
            r == self.objs@[obj as int].ranges@.len(),
    {
        self.objs[obj].num_chunks()
    }

    /// The byte range of chunk `idx` of object `obj`.
    pub fn range_of(&self, obj: usize, idx: usize) -> (r: ByteRange)
        requires
            obj < self.objs@.len(),
            idx < self.objs@[obj as int].ranges@.len(),
        ensures
            r == self.objs@[obj as int].ranges@[idx as int],
    {
        self.objs[obj].range_at(idx)
    }

    /// Write one fully drained chunk of one object, leaving every other
    /// object untouched. The write is refused, and the batch unchanged,
    /// unless the chunk is new and exactly fills its range.
    pub fn write_chunk(&mut self, obj: usize, idx: usize, data: &Vec<u8>) -> (r: Result<
        (),
        StoreError,
    >)
        requires
            old(self).wf(),
        ensures
            final(self).wf(),
            final(self).objs@.len() == old(self).objs@.len(),
            r is Ok <==> obj < old(self).objs@.len() && write_ok(
                old(self).objs@[obj as int],
                idx as int,
                data@,
            ),
            r is Ok ==> chunk_written(
                old(self).objs@[obj as int],
                final(self).objs@[obj as int],
                idx as int,
                data@,
            ),
            forall|k: int|
                0 <= k < old(self).objs@.len() && k != obj ==> final(self).objs@[k] == old(
                    self,
                ).objs@[k],
            r is Err ==> final(self).objs@ == old(self).objs@ && r == Err::<(), StoreError>(
                StoreError::StoreUnavailable,
            ),
    {
        if obj >= self.objs.len() {
            return Err(StoreError::StoreUnavailable);
        }
        let res = self.objs[obj].write_chunk(idx, data);
        proof {
            if res is Err {
                assert(self.objs@ =~= old(self).objs@);
            }
        }
        res
    }

    /// Release all buffers of the batch, positionally aligned with the
    /// requested paths. The call succeeds only when every chunk of every
    /// object has been written; otherwise no buffer is exposed at all.
    pub fn finish(self) -> (r: Result<Vec<Vec<u8>>, StoreError>)
        ensures
            self.complete() ==> (r matches Ok(bufs) && bufs@.len() == self.objs@.len() && (
            forall|i: int|
                0 <= i < self.objs@.len() ==> (#[trigger] bufs@[i])@ == self.objs@[i].buf@)),
            !self.complete() ==> r == Err::<Vec<Vec<u8>>, StoreError>(
                StoreError::PartialBatchFailure,
            ),
    {
        let ghost orig = self.objs@;
        let mut k: usize = 0;
        while k < self.objs.len()
            invariant
                self.objs@ == orig,
                k <= orig.len(),
                forall|i: int| 0 <= i < k ==> (#[trigger] orig[i]).complete(),
            decreases orig.len() - k,
        {
            if !self.objs[k].is_complete() {
                return Err(StoreError::PartialBatchFailure);
            }
            k = k + 1;
        }
        let mut rest = self.objs;
        let mut bufs: Vec<Vec<u8>> = Vec::new();
        while rest.len() > 0
            invariant
                bufs@.len() + rest@.len() == orig.len(),
                forall|i: int| 0 <= i < orig.len() ==> (#[trigger] orig[i]).complete(),
                forall|i: int| 0 <= i < rest@.len() ==> rest@[i] == orig[bufs@.len() + i],
                forall|i: int| 0 <= i < bufs@.len() ==> (#[trigger] bufs@[i])@ == orig[i].buf@,
            decreases rest@.len(),
        {
            let a = rest.remove(0);
            proof {
                assert(a == orig[bufs@.len() as int]);
                assert(a.complete());
            }
            match a.finish() {
                Ok(b) => {
                    bufs.push(b);
                },
                Err(_) => {
                    return Err(StoreError::PartialBatchFailure);
                },
            }
        }
        Ok(bufs)
    }
}

/// The bytes of `content` that `ranges` select, concatenated in range
/// order.
pub open spec fn concat_slices(content: Seq<u8>, ranges: Seq<ByteRange>) -> Seq<u8>
    decreases ranges.len(),
{
    if ranges.len() == 0 {
        Seq::empty()
    } else {
        concat_slices(content, ranges.drop_last()) + content.subrange(
            ranges.last().start as int,
            ranges.last().end + 1,
        )
    }
}

/// Reassembly: slicing an object's bytes along its chunk plan and
/// concatenating the slices in plan order gives back exactly the original
/// bytes, whatever chunk size the plan was made with.
pub proof fn lemma_plan_reassembles(content: Seq<u8>, ranges: Seq<ByteRange>, chunk: int)
    requires
        chunk >= 1,
        is_plan(ranges, content.len() as int, chunk),
    ensures
        concat_slices(content, ranges) == content,
{
    lemma_reassemble_prefix(content, ranges, chunk, content.len() as int);
    assert(content.take(content.len() as int) =~= content);
}

/// Helper for reassembly: a plan for the first `total` bytes of `content`
/// selects exactly those bytes.
proof fn lemma_reassemble_prefix(content: Seq<u8>, ranges: Seq<ByteRange>, chunk: int, total: int)
    requires
        chunk >= 1,
        0 <= total <= content.len(),
        is_plan(ranges, total, chunk),
    ensures
        concat_slices(content, ranges) == content.take(total),
    decreases ranges.len(),
{
    lemma_mul_basics(chunk);
    if ranges.len() == 0 {
        assert(total == 0) by {
            if total > 0 {
                assert(ranges.len() >= 1);
            }
        }
        assert(content.take(0) =~= Seq::<u8>::empty());
    } else {
        let n = ranges.len() as int;
        let rest = ranges.drop_last();
        let total_rest = (n - 1) * chunk;
        lemma_mul_is_distributive_add_other_way(chunk, n - 1, 1);
        assert(n * chunk == (n - 1) * chunk + chunk);
        lemma_mul_is_distributive_add_other_way(chunk, n - 2, 1);
        // The plan without its last range is the plan for the bytes up to
        // the last range's start.
        assert(total > 0);
        assert(ranges[n - 1].start == total_rest);
        assert(total_rest < total);
        assert(ranges[n - 1].end + 1 == total);
        assert forall|i: int| 0 <= i < rest.len() implies {
            &&& (#[trigger] rest[i]).start == i * chunk
            &&& rest[i].end + 1 == if (i + 1) * chunk <= total_rest {
                (i + 1) * chunk
            } else {
                total_rest
            }
        } by {
            lemma_mul_inequality(i + 1, n - 1, chunk);
            assert((i + 1) * chunk <= total_rest);
            assert(rest[i] == ranges[i]);
        }
        if total_rest > 0 {
            assert(rest.len() >= 1) by {
                if n - 1 == 0 {
                    assert(total_rest == 0 * chunk);
                }
            }
            assert((rest.len() - 1) * chunk < total_rest <= rest.len() * chunk);
        } else {
            assert(total_rest == (n - 1) * chunk);
            assert(n - 1 == 0) by {
                if n - 1 >= 1 {
                    lemma_mul_inequality(1, n - 1, chunk);
                    assert((n - 1) * chunk >= 1 * chunk);
                }
            }
        }
        assert(is_plan(rest, total_rest, chunk));
        lemma_reassemble_prefix(content, rest, chunk, total_rest);
        assert(concat_slices(content, ranges) == content.take(total_rest) + content.subrange(
            total_rest,
            total,
        ));
        assert(content.take(total_rest) + content.subrange(total_rest, total) =~= content.take(
            total,
        ));
    }
}

/// The all-or-nothing metadata phase of a batch fetch: the sizes of all
/// objects, positionally aligned with the `Head` outcomes, or the error
/// of the first failed `Head` when any object is missing or unreachable.
/// No buffer is allocated for any object of a batch whose metadata phase
/// failed: allocation starts from the sizes this function returns.
pub fn heads_to_sizes(heads: &Vec<HeadResult>) -> (r: Result<Vec<usize>, StoreError>)
    ensures
        r is Ok <==> (forall|i: int| 0 <= i < heads@.len() ==> (#[trigger] heads@[i]) is Found),
        r matches Ok(sizes) ==> sizes@.len() == heads@.len() && (forall|i: int|
            0 <= i < heads@.len() ==> ((#[trigger] heads@[i]) matches HeadResult::Found(m)
                && sizes@[i] == m.size)),
        r matches Err(e) ==> (exists|i: int|
            {
                &&& 0 <= i < heads@.len()
                &&& !((#[trigger] heads@[i]) is Found)
                &&& (forall|k: int| 0 <= k < i ==> (#[trigger] heads@[k]) is Found)
                &&& e == crate::meta::head_failure_error(heads@[i])
            }),
{
    let mut sizes: Vec<usize> = Vec::new();
    let mut k: usize = 0;
    while k < heads.len()
        invariant
            k <= heads@.len(),
            sizes@.len() == k,
            forall|i: int|
                0 <= i < k ==> ((#[trigger] heads@[i]) matches HeadResult::Found(m) && sizes@[i]
                    == m.size),
        decreases heads@.len() - k,
    {
        match &heads[k] {
            HeadResult::Found(m) => {
                sizes.push(m.size);
            },
            HeadResult::Missing => {
                return Err(StoreError::NotFound);
            },
            HeadResult::Failed => {
                return Err(StoreError::StoreUnavailable);
            },
        }
        k = k + 1;
    }
    Ok(sizes)
}

} // verus!
