//! The overlapped block framer.
//!
//! The input is processed in blocks.  A block is cut into `ffts_per_buf`
//! windows of `fft_size` samples, each starting `fft_size - fft_size / 4`
//! samples behind the one before, so that consecutive windows share a quarter
//! of their samples.  The last quarter window of a block is kept and stands
//! at the front of the next block, which makes the overlap continue from
//! block to block.
//!
//! The framer moves samples and never looks into them: a sample is any `T`.

use vstd::prelude::*;

verus! {

/// Requirements for the buffer that holds one block.
#[derive(Clone, Copy, Debug, PartialEq, Eq, Structural)]
pub struct InputBufferSize {
    /// Number of new samples in each buffer
    pub new: usize,
    /// Overlapping samples from previous buffer
    pub overlap: usize,
    /// Total size of the buffer (new+overlap)
    pub total: usize,
}

/// Number of samples that consecutive windows share: a quarter of a window.
pub open spec fn overlap_of(fft_size: int) -> int {
    fft_size / 4
}

/// Number of samples from the start of one window to the start of the next.
pub open spec fn interval_of(fft_size: int) -> int {
    fft_size - fft_size / 4
}

/// Number of new samples of a block.
pub open spec fn new_of(fft_size: int, ffts_per_buf: int) -> int {
    interval_of(fft_size) * ffts_per_buf
}

/// Number of samples of a block.
pub open spec fn total_of(fft_size: int, ffts_per_buf: int) -> int {
    overlap_of(fft_size) + new_of(fft_size, ffts_per_buf)
}

/// Window `i` of a block.
pub open spec fn window_of<T>(block: Seq<T>, fft_size: int, i: int) -> Seq<T> {
    block.subrange(i * interval_of(fft_size), i * interval_of(fft_size) + fft_size)
}

/// The block that follows `block` when `fresh` arrives: the end of the old
/// block, then the new samples.
pub open spec fn next_block<T>(
    block: Seq<T>,
    fft_size: int,
    ffts_per_buf: int,
    fresh: Seq<T>,
) -> Seq<T> {
    block.subrange(new_of(fft_size, ffts_per_buf), total_of(fft_size, ffts_per_buf))
        + fresh.subrange(0, new_of(fft_size, ffts_per_buf))
}

impl InputBufferSize {
    /// Whether these are the sizes for windows of `fft_size` samples,
    /// `ffts_per_buf` of them in a block.
    pub open spec fn describes(self, fft_size: int, ffts_per_buf: int) -> bool {
        &&& self.overlap == overlap_of(fft_size)
        &&& self.new == new_of(fft_size, ffts_per_buf)
        &&& self.total == total_of(fft_size, ffts_per_buf)
    }

    /// The sizes of the buffer for windows of `fft_size` samples,
    /// `ffts_per_buf` of them in a block, or `None` where a block is too
    /// large to be counted.
    pub fn for_block(fft_size: usize, ffts_per_buf: usize) -> (size: Option<InputBufferSize>)
        ensures
            total_of(fft_size as int, ffts_per_buf as int) <= usize::MAX <==> size is Some,
            size is Some ==> size->Some_0.describes(fft_size as int, ffts_per_buf as int),
    {
        let fft_overlap = fft_size / 4;  // 25% overlap
        let fft_interval = fft_size - fft_overlap;  // FFT is taken every fft_interval samples
        proof {
            lemma_sizes_are_positive(fft_size as int, ffts_per_buf as int);
        }
        match fft_interval.checked_mul(ffts_per_buf) {
            Some(new) => match fft_overlap.checked_add(new) {
                Some(total) => Some(InputBufferSize { new, overlap: fft_overlap, total }),
                None => None,
            },
            None => None,
        }
    }
}

impl InputBufferSize {
    /// Number of raw bytes that hold the new samples of a block, where a
    /// sample takes `bytes_per_sample` bytes, or `None` where they are too
    /// many to be counted.
    pub fn raw_bytes(&self, bytes_per_sample: usize) -> (bytes: Option<usize>)
        ensures
            bytes_per_sample * self.new <= usize::MAX <==> bytes is Some,
            bytes is Some ==> bytes->Some_0 == bytes_per_sample * self.new,
    {
        bytes_per_sample.checked_mul(self.new)
    }
}

/// No size of a block is negative.
pub proof fn lemma_sizes_are_positive(fft_size: int, ffts_per_buf: int)
    requires
        0 <= fft_size,
        0 <= ffts_per_buf,
    ensures
        0 <= overlap_of(fft_size) <= fft_size,
        0 <= interval_of(fft_size) <= fft_size,
        0 <= new_of(fft_size, ffts_per_buf) <= total_of(fft_size, ffts_per_buf),
{
    assert(0 <= interval_of(fft_size) * ffts_per_buf) by (nonlinear_arith)
        requires
            0 <= interval_of(fft_size),
            0 <= ffts_per_buf,
    ;
}

/// Every window lies inside the block, and the last one ends where the block
/// ends.
pub proof fn lemma_window_lies_inside(fft_size: int, ffts_per_buf: int, i: int)
    requires
        0 <= fft_size,
        0 <= i < ffts_per_buf,
    ensures
        0 <= i * interval_of(fft_size),
        i * interval_of(fft_size) + fft_size <= total_of(fft_size, ffts_per_buf),
        (ffts_per_buf - 1) * interval_of(fft_size) + fft_size == total_of(fft_size, ffts_per_buf),
{
    let d = interval_of(fft_size);
    assert(0 <= i * d) by (nonlinear_arith)
        requires
            0 <= i,
            0 <= d,
    ;
    assert(i * d + d <= d * ffts_per_buf) by (nonlinear_arith)
        requires
            i + 1 <= ffts_per_buf,
            0 <= d,
    ;
    assert((ffts_per_buf - 1) * d + d == d * ffts_per_buf) by (nonlinear_arith);
}

/// Consecutive windows of a block share a quarter window: the last
/// `fft_size / 4` samples of one are the first of the next.
pub proof fn lemma_windows_overlap<T>(block: Seq<T>, fft_size: int, ffts_per_buf: int, i: int)
    requires
        0 <= fft_size,
        0 <= i,
        i + 1 < ffts_per_buf,
        block.len() == total_of(fft_size, ffts_per_buf),
    ensures
        window_of(block, fft_size, i + 1).subrange(0, overlap_of(fft_size)) == window_of(
            block,
            fft_size,
            i,
        ).subrange(interval_of(fft_size), fft_size),
{
    let d = interval_of(fft_size);
    lemma_window_lies_inside(fft_size, ffts_per_buf, i);
    lemma_window_lies_inside(fft_size, ffts_per_buf, i + 1);
    assert((i + 1) * d == i * d + d) by (nonlinear_arith);
    assert(window_of(block, fft_size, i + 1).subrange(0, overlap_of(fft_size)) =~= window_of(
        block,
        fft_size,
        i,
    ).subrange(d, fft_size));
}

/// Overlap-save integrity: the first `fft_size / 4` samples of the first
/// window of a block are the last `fft_size / 4` samples of the last window
/// of the block before it.
pub proof fn lemma_overlap_save<T>(
    block: Seq<T>,
    fresh: Seq<T>,
    fft_size: int,
    ffts_per_buf: int,
)
    requires
        0 <= fft_size,
        1 <= ffts_per_buf,
        block.len() == total_of(fft_size, ffts_per_buf),
        fresh.len() >= new_of(fft_size, ffts_per_buf),
    ensures
        next_block(block, fft_size, ffts_per_buf, fresh).len() == block.len(),
        window_of(next_block(block, fft_size, ffts_per_buf, fresh), fft_size, 0).subrange(
            0,
            overlap_of(fft_size),
        ) == window_of(block, fft_size, ffts_per_buf - 1).subrange(interval_of(fft_size), fft_size),
{
    let d = interval_of(fft_size);
    lemma_sizes_are_positive(fft_size, ffts_per_buf);
    lemma_window_lies_inside(fft_size, ffts_per_buf, 0);
    lemma_window_lies_inside(fft_size, ffts_per_buf, ffts_per_buf - 1);
    assert((ffts_per_buf - 1) * d + d == d * ffts_per_buf) by (nonlinear_arith);
    let next = next_block(block, fft_size, ffts_per_buf, fresh);
    assert(window_of(next, fft_size, 0).subrange(0, overlap_of(fft_size)) =~= window_of(
        block,
        fft_size,
        ffts_per_buf - 1,
    ).subrange(d, fft_size));
}

/// What a framer holds.
pub struct FramerState<T> {
    /// Number of samples of a window.
    pub fft_size: usize,
    /// Number of windows of a block.
    pub ffts_per_buf: usize,
    /// Sequence number of the next block.
    pub seq: u64,
    /// The samples of the current block.
    pub block: Seq<T>,
}

/// Holds the samples of the current block, numbers the blocks and hands out
/// their windows.
pub struct Framer<T> {
    fft_size: usize,
    ffts_per_buf: usize,
    fft_interval: usize,
    size: InputBufferSize,
    seq: u64,
    buf: Vec<T>,
}

impl<T> View for Framer<T> {
    type V = FramerState<T>;

    closed spec fn view(&self) -> FramerState<T> {
        FramerState {
            fft_size: self.fft_size,
            ffts_per_buf: self.ffts_per_buf,
            seq: self.seq,
            block: self.buf@,
        }
    }
}

impl<T> Framer<T> {
    #[verifier::type_invariant]
    spec fn well_formed(self) -> bool {
        &&& self.size.describes(self.fft_size as int, self.ffts_per_buf as int)
        &&& self.fft_interval == interval_of(self.fft_size as int)
        &&& self.buf@.len() == self.size.total
    }
}

impl<T: Copy> Framer<T> {
    /// Makes a framer whose first block begins with `fill` in place of
    /// samples, or `None` where a block is too large to be counted.
    pub fn new(fft_size: usize, ffts_per_buf: usize, fill: T) -> (framer: Option<Self>)
        ensures
            total_of(fft_size as int, ffts_per_buf as int) <= usize::MAX <==> framer is Some,
            framer is Some ==> framer->Some_0@ == (FramerState {
                fft_size,
                ffts_per_buf,
                seq: 0,
                block: Seq::new(
                    total_of(fft_size as int, ffts_per_buf as int) as nat,
                    |k: int| fill,
                ),
            }),
    {
        let size = match InputBufferSize::for_block(fft_size, ffts_per_buf) {
            Some(size) => size,
            None => {
                return None;
            },
        };
        let mut buf: Vec<T> = Vec::with_capacity(size.total);
        let mut k: usize = 0;
        while k < size.total
            invariant
                k <= size.total,
                buf@.len() == k,
                forall|j: int| 0 <= j < k ==> buf@[j] == fill,
            decreases size.total - k,
        {
            buf.push(fill);
            k += 1;
        }
        assert(buf@ =~= Seq::new(size.total as nat, |k: int| fill));
        Some(
            Framer {
                fft_size,
                ffts_per_buf,
                fft_interval: fft_size - fft_size / 4,
                size,
                seq: 0,
                buf,
            },
        )
    }

    /// The sizes of the buffer that holds a block.
    pub fn size(&self) -> (size: InputBufferSize)
        ensures
            size.describes(self@.fft_size as int, self@.ffts_per_buf as int),
            size.total == self@.block.len(),
    {
        proof {
            use_type_invariant(self);
        }
        self.size
    }

    /// Sequence number of the next block.
    pub fn seq(&self) -> (seq: u64)
        ensures
            seq == self@.seq,
    {
        self.seq
    }

    /// Takes in the new samples of the next block, and gives the sequence
    /// number of the block.
    ///
    /// The last `overlap` samples of the block are copied to its front, and
    /// the first `new` samples of `fresh` follow them.  Where `fresh` holds
    /// fewer, the input has ended: nothing changes, and there is no block.
    pub fn ingest(&mut self, fresh: &[T]) -> (taken: Option<u64>)
        requires
            old(self)@.seq < u64::MAX,
        ensures
            taken is Some <==> fresh@.len() >= new_of(
                old(self)@.fft_size as int,
                old(self)@.ffts_per_buf as int,
            ),
            taken is Some ==> taken == Some(old(self)@.seq) && final(self)@ == (FramerState {
                seq: (old(self)@.seq + 1) as u64,
                block: next_block(
                    old(self)@.block,
                    old(self)@.fft_size as int,
                    old(self)@.ffts_per_buf as int,
                    fresh@,
                ),
                ..old(self)@
            }),
            taken is None ==> final(self)@ == old(self)@,
    {
        proof {
            use_type_invariant(&*self);
        }
        let new = self.size.new;
        let overlap = self.size.overlap;
        if fresh.len() < new {
            return None;
        }
        // copy the overlapping part to beginning of the buffer
        let mut k: usize = 0;
        while k < overlap
            invariant
                k <= overlap,
                overlap == self.size.overlap,
                new == self.size.new,
                self.size == old(self).size,
                self.seq == old(self).seq,
                self.fft_size == old(self).fft_size,
                self.ffts_per_buf == old(self).ffts_per_buf,
                self.fft_interval == old(self).fft_interval,
                self.size.describes(self.fft_size as int, self.ffts_per_buf as int),
                self.fft_interval == interval_of(self.fft_size as int),
                self.buf@.len() == self.size.total,
                old(self).buf@.len() == self.size.total,
                forall|j: int| 0 <= j < k ==> self.buf@[j] == old(self).buf@[new + j],
                forall|j: int| k <= j < self.buf@.len() ==> self.buf@[j] == old(self).buf@[j],
            decreases overlap - k,
        {
            let sample = self.buf[new + k];
            self.buf[k] = sample;
            k += 1;
        }
        // the new samples fill the rest of the buffer
        let mut k: usize = 0;
        while k < new
            invariant
                k <= new <= fresh@.len(),
                overlap == self.size.overlap,
                new == self.size.new,
                self.size == old(self).size,
                self.seq == old(self).seq,
                self.fft_size == old(self).fft_size,
                self.ffts_per_buf == old(self).ffts_per_buf,
                self.fft_interval == old(self).fft_interval,
                self.size.describes(self.fft_size as int, self.ffts_per_buf as int),
                self.fft_interval == interval_of(self.fft_size as int),
                self.buf@.len() == self.size.total,
                old(self).buf@.len() == self.size.total,
                forall|j: int| 0 <= j < overlap ==> self.buf@[j] == old(self).buf@[new + j],
                forall|j: int| 0 <= j < k ==> self.buf@[overlap + j] == fresh@[j],
            decreases new - k,
        {
            self.buf[overlap + k] = fresh[k];
            k += 1;
        }
        assert(self.buf@ =~= next_block(
            old(self).buf@,
            self.fft_size as int,
            self.ffts_per_buf as int,
            fresh@,
        ));
        let seq = self.seq;
        self.seq += 1;
        Some(seq)
    }

    /// Window `i` of the block: `fft_size` samples from `i` intervals on.
    pub fn window(&self, i: usize) -> (window: &[T])
        requires
            i < self@.ffts_per_buf,
        ensures
            window@ == window_of(self@.block, self@.fft_size as int, i as int),
            window@.len() == self@.fft_size,
    {
        proof {
            use_type_invariant(self);
            lemma_window_lies_inside(self.fft_size as int, self.ffts_per_buf as int, i as int);
            assert(i * self.fft_interval <= usize::MAX);
        }
        let start = i * self.fft_interval;
        vstd::slice::slice_subrange(self.buf.as_slice(), start, start + self.fft_size)
    }
}

} // verus!
