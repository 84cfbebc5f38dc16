//! Spectrum analysis
//!
//! The code here takes FFT results and turns them into
//! spectrum analysis results using the Welch's method.
//!
//! The squared magnitude of each FFT bin is averaged over a number of FFTs.
//! Result of that is then quantized on a logarithmic scale and written
//! into a record.
//!
//! As a modification from usual Welch's method,
//! the multiplication with a window function before the FFT is replaced
//! by an equivalent circular convolution in frequency domain after the FFT:
//! each bin is combined with its two neighbours.  That lets the FFT run with
//! a rectangular window, so that the same FFT results serve both a filter
//! bank and spectrum analysis.
//!
//! This module decides which values are combined, counts the FFTs, clamps
//! the quantized levels and frames the record.  The arithmetic on the values
//! themselves is the caller's: the accumulator holds them as an opaque `A`.

use crate::data::{
    lemma_metadata_header_len,
    metadata_header,
    serialize_metadata,
    FftInfo,
    Metadata,
    METADATA_LEN,
};
use crate::fftutil::{
    bin_of,
    get_wrapped_bin,
    lemma_bins_are_periodic,
    lemma_stored_bin_is_raw,
    Bin,
};
use crate::wire::be_bytes;
use vstd::prelude::*;

verus! {

/// Output format for spectrum data.
#[derive(Clone, Copy, Debug, PartialEq, Eq, Structural)]
pub enum SpectrumFormat {
    /// One byte per bin, 0.5 dB per step, 0 dB near 250.
    U8,
    /// Two bytes per bin, most significant first, 0.05 dB per step, 0 dB near
    /// 4000, twelve bits used.
    U16,
}

impl SpectrumFormat {
    /// The largest quantized level.
    pub open spec fn top(self) -> int {
        match self {
            SpectrumFormat::U8 => 255,
            SpectrumFormat::U16 => 4095,
        }
    }

    /// Number of bytes of one quantized level.
    pub open spec fn width(self) -> nat {
        match self {
            SpectrumFormat::U8 => 1,
            SpectrumFormat::U16 => 2,
        }
    }

    /// Number of steps of the quantized level in one dB.
    pub open spec fn spec_steps_per_db(self) -> int {
        match self {
            SpectrumFormat::U8 => 2,
            SpectrumFormat::U16 => 20,
        }
    }

    /// The quantized level of 0 dB.
    pub open spec fn spec_zero_db(self) -> int {
        match self {
            SpectrumFormat::U8 => 250,
            SpectrumFormat::U16 => 4000,
        }
    }

    /// Number of steps of the quantized level in one dB: a power of `p` dB
    /// has the level `steps_per_db * p + zero_db`, rounded and clamped.
    pub fn steps_per_db(self) -> (steps: u16)
        ensures
            steps == self.spec_steps_per_db(),
    {
        match self {
            SpectrumFormat::U8 => 2,
            SpectrumFormat::U16 => 20,
        }
    }

    /// The quantized level of 0 dB.
    pub fn zero_db(self) -> (level: u16)
        ensures
            level == self.spec_zero_db(),
            level <= self.top(),
    {
        match self {
            SpectrumFormat::U8 => 250,
            SpectrumFormat::U16 => 4000,
        }
    }
}

/// The three bins that make one bin of the windowed spectrum: the bin itself
/// minus half the sum of its neighbours.
#[derive(Clone, Copy, Debug)]
pub struct Stencil<T> {
    /// The bin below, which for the first bin is the last of the FFT.
    pub below: Bin<T>,
    /// The bin itself.
    pub centre: Bin<T>,
    /// The bin above, which for the last bin of the FFT is the first.
    pub above: Bin<T>,
}

/// The stencil of bin `k`.
pub open spec fn stencil_of<T>(fft_result: Seq<T>, fft_size: int, k: int) -> Stencil<T> {
    Stencil {
        below: bin_of(fft_result, fft_size, k - 1),
        centre: bin_of(fft_result, fft_size, k),
        above: bin_of(fft_result, fft_size, k + 1),
    }
}

/// The stencil of a bin whose neighbours may lie outside the stored range.
fn edge_stencil<T: Copy>(fft_result: &[T], fft_size: usize, k: usize) -> (stencil: Stencil<T>)
    requires
        k < fft_result@.len() <= fft_size < 2 * fft_result@.len(),
    ensures
        stencil == stencil_of(fft_result@, fft_size as int, k as int),
{
    let below = if k == 0 {
        fft_size - 1
    } else {
        k - 1
    };
    let above = if k + 1 == fft_size {
        0
    } else {
        k + 1
    };
    proof {
        lemma_bins_are_periodic(fft_result@, fft_size as int, k as int - 1, 1);
        lemma_bins_are_periodic(fft_result@, fft_size as int, above as int, 1);
    }
    Stencil {
        below: get_wrapped_bin(fft_result, fft_size, below),
        centre: get_wrapped_bin(fft_result, fft_size, k),
        above: get_wrapped_bin(fft_result, fft_size, above),
    }
}

/// Gives, for every stored bin of an FFT result, the three values that the
/// convolution with -0.5, 1, -0.5 combines.
///
/// Only the first and the last bin need modulo indexing.  The bins between
/// them are read from three consecutive stored values, which is the same.
pub fn hann_stencils<T: Copy>(fft_result: &[T], fft_size: usize) -> (stencils: Vec<Stencil<T>>)
    requires
        0 < fft_result@.len() <= fft_size < 2 * fft_result@.len(),
    ensures
        stencils@.len() == fft_result@.len(),
        forall|k: int|
            0 <= k < stencils@.len() ==> stencils@[k] == stencil_of(
                fft_result@,
                fft_size as int,
                k,
            ),
{
    let bins = fft_result.len();
    let mut stencils: Vec<Stencil<T>> = Vec::with_capacity(bins);

    // Special cases of first and last bins
    stencils.push(edge_stencil(fft_result, fft_size, 0));

    // Faster way to process the rest of the bins
    let mut k: usize = 1;
    while k < bins - 1
        invariant
            1 <= k,
            k == 1 || k < bins,
            1 <= bins == fft_result@.len(),
            bins <= fft_size,
            stencils@.len() == k,
            forall|j: int|
                0 <= j < stencils@.len() ==> stencils@[j] == stencil_of(
                    fft_result@,
                    fft_size as int,
                    j,
                ),
        decreases bins - k,
    {
        proof {
            lemma_stored_bin_is_raw(fft_result@, fft_size as int, k as int - 1);
            lemma_stored_bin_is_raw(fft_result@, fft_size as int, k as int);
            lemma_stored_bin_is_raw(fft_result@, fft_size as int, k as int + 1);
        }
        stencils.push(
            Stencil {
                below: Bin { value: fft_result[k - 1], conjugate: false },
                centre: Bin { value: fft_result[k], conjugate: false },
                above: Bin { value: fft_result[k + 1], conjugate: false },
            },
        );
        k += 1;
    }

    if bins > 1 {
        stencils.push(edge_stencil(fft_result, fft_size, bins - 1));
    }
    stencils
}

/// A level held to the range from zero to `top`.
pub open spec fn clamped(level: int, top: int) -> int {
    if level < 0 {
        0
    } else if level > top {
        top
    } else {
        level
    }
}

/// Clamps a level to one byte.
///
/// `level` is twice the power in dB plus 250, rounded to an integer.
pub fn quantize_u8(level: i64) -> (q: u8)
    ensures
        q == clamped(level as int, SpectrumFormat::U8.top()),
        q <= 255,
{
    if level < 0 {
        0
    } else if level > 255 {
        255
    } else {
        level as u8
    }
}

/// Clamps a level to twelve bits.
///
/// `level` is twenty times the power in dB plus 4000, rounded to an integer.
pub fn quantize_u16(level: i64) -> (q: u16)
    ensures
        q == clamped(level as int, SpectrumFormat::U16.top()),
        q <= 4095,
{
    if level < 0 {
        0
    } else if level > 4095 {
        4095
    } else {
        level as u16
    }
}

/// The bytes of one quantized level: the clamped level in the width of the
/// format, most significant byte first.
pub open spec fn level_bytes(outfmt: SpectrumFormat, level: i64) -> Seq<u8> {
    be_bytes(clamped(level as int, outfmt.top()) as nat, outfmt.width())
}

/// The body of a spectrum record: the bytes of the levels, one level after
/// the other.
pub open spec fn payload(outfmt: SpectrumFormat, levels: Seq<i64>) -> Seq<u8>
    decreases levels.len(),
{
    if levels.len() == 0 {
        Seq::empty()
    } else {
        payload(outfmt, levels.drop_last()) + level_bytes(outfmt, levels.last())
    }
}

/// A spectrum record: the header with the record's own sequence number, then
/// the body.
pub open spec fn spectrum_record(
    seq: u64,
    metadata: Metadata,
    outfmt: SpectrumFormat,
    levels: Seq<i64>,
) -> Seq<u8> {
    metadata_header(seq, metadata.systemtime) + payload(outfmt, levels)
}

/// The body of a record has one byte per bin in the 8-bit format and two in
/// the 16-bit format.
pub proof fn lemma_payload_len(outfmt: SpectrumFormat, levels: Seq<i64>)
    ensures
        payload(outfmt, levels).len() == outfmt.width() * levels.len(),
    decreases levels.len(),
{
    if levels.len() > 0 {
        lemma_payload_len(outfmt, levels.drop_last());
        crate::wire::lemma_be_bytes_len(
            clamped(levels.last() as int, outfmt.top()) as nat,
            outfmt.width(),
        );
        assert(outfmt.width() * levels.len() == outfmt.width() * (levels.len() - 1)
            + outfmt.width()) by (nonlinear_arith);
    }
}

/// Every byte of an 8-bit body is a level between 0 and 255, and every pair of
/// bytes of a 16-bit body spells a level between 0 and 4095, whatever the
/// levels handed in.
pub proof fn lemma_payload_in_range(outfmt: SpectrumFormat, levels: Seq<i64>, k: int)
    requires
        0 <= k < levels.len(),
    ensures
        payload(outfmt, levels).len() == outfmt.width() * levels.len(),
        crate::wire::be_value(
            payload(outfmt, levels).subrange(k * outfmt.width(), (k + 1) * outfmt.width()),
        ) == clamped(levels[k] as int, outfmt.top()),
        0 <= clamped(levels[k] as int, outfmt.top()) <= outfmt.top(),
    decreases levels.len(),
{
    let w = outfmt.width() as int;
    let rest = levels.drop_last();
    let value = clamped(levels.last() as int, outfmt.top()) as nat;
    lemma_payload_len(outfmt, levels);
    lemma_payload_len(outfmt, rest);
    crate::wire::lemma_be_bytes_len(value, outfmt.width());
    assert(k * w + w == (k + 1) * w) by (nonlinear_arith);
    assert(0 <= k * w) by (nonlinear_arith)
        requires
            0 <= k,
            0 <= w,
    ;
    if k == levels.len() - 1 {
        assert(payload(outfmt, levels).subrange(k * w, (k + 1) * w) =~= level_bytes(
            outfmt,
            levels.last(),
        ));
        crate::wire::lemma_be_round_trip(value, outfmt.width());
        assert(crate::wire::radix(1) == 256 && crate::wire::radix(2) == 65536) by {
            reveal_with_fuel(crate::wire::radix, 3);
        }
    } else {
        lemma_payload_in_range(outfmt, rest, k);
        assert((k + 1) * w <= rest.len() * w) by (nonlinear_arith)
            requires
                k + 1 <= rest.len(),
                0 <= w,
        ;
        assert(payload(outfmt, levels).subrange(k * w, (k + 1) * w) =~= payload(
            outfmt,
            rest,
        ).subrange(k * w, (k + 1) * w));
    }
}

/// What a spectrum accumulator holds.
pub struct SpectrumState<A> {
    /// Sequence number, number of records produced.
    pub seq: u64,
    /// Accumulator for FFT averaging, one value per stored bin.
    pub acc: Seq<A>,
    /// Counter for number of FFTs averaged.
    pub frames: nat,
    /// The value of an empty accumulator bin.
    pub zero: A,
    /// Parameter: information about FFT results.
    pub fft_info: FftInfo,
    /// Parameter: number of FFTs averaged.
    pub averages: u32,
    /// Parameter: output format for spectrum data.
    pub outfmt: SpectrumFormat,
}

impl<A> SpectrumState<A> {
    /// Whether enough FFTs have been counted for a record.
    pub open spec fn due(self) -> bool {
        self.frames > 0 && self.frames >= self.averages
    }

    /// The state after `n` more FFTs are counted.
    pub open spec fn after_frames(self, n: nat) -> Self {
        SpectrumState { frames: self.frames + n, ..self }
    }

    /// The state after a flush: an empty accumulator and the next sequence
    /// number.
    pub open spec fn flushed(self) -> Self {
        SpectrumState {
            seq: (self.seq + 1) as u64,
            acc: Seq::new(self.acc.len(), |k: int| self.zero),
            frames: 0,
            ..self
        }
    }

    /// The state of a new accumulator.
    pub open spec fn initial(
        fft_info: FftInfo,
        averages: u32,
        outfmt: SpectrumFormat,
        zero: A,
    ) -> Self {
        SpectrumState {
            seq: 0,
            acc: Seq::new(fft_info.spec_result_bins() as nat, |k: int| zero),
            frames: 0,
            zero,
            fft_info,
            averages,
            outfmt,
        }
    }
}

/// One record per `averages` FFTs: counting from an empty accumulator, a
/// record is due from the FFT on that completes the average, and not before.
/// An average over no FFT is an average over one.
pub proof fn lemma_record_every_averages<A>(state: SpectrumState<A>, n: nat)
    requires
        state.frames == 0,
    ensures
        state.after_frames(n).due() <==> n >= 1 && n >= state.averages,
        state.flushed().frames == 0,
        !state.flushed().due(),
{
}

/// The sequence numbers of spectrum records increase by one from record to
/// record, whatever happens between two records, and each record carries its
/// number in the header that precedes its body.
pub proof fn lemma_spectrum_seq_increases<A>(
    state: SpectrumState<A>,
    metadata: Metadata,
    levels: Seq<i64>,
    frames: nat,
    next_metadata: Metadata,
    next_levels: Seq<i64>,
)
    requires
        state.seq < u64::MAX,
    ensures
        crate::data::record_seq(spectrum_record(state.seq, metadata, state.outfmt, levels))
            == state.seq,
        crate::data::record_seq(
            spectrum_record(
                state.flushed().after_frames(frames).seq,
                next_metadata,
                state.outfmt,
                next_levels,
            ),
        ) == state.seq + 1,
        spectrum_record(state.seq, metadata, state.outfmt, levels).subrange(
            METADATA_LEN as int,
            METADATA_LEN + payload(state.outfmt, levels).len(),
        ) == payload(state.outfmt, levels),
{
    crate::data::lemma_record_framing(
        state.seq,
        metadata.systemtime,
        payload(state.outfmt, levels),
    );
    crate::data::lemma_record_framing(
        (state.seq + 1) as u64,
        next_metadata.systemtime,
        payload(state.outfmt, next_levels),
    );
}

/// Averages the power of every bin over a number of FFTs and frames the
/// result as records.
///
/// The accumulated values have the type `A`, of which this type knows a zero
/// and nothing else: the caller adds to a bin with [`Self::bin`] and
/// [`Self::set_bin`], and turns the bins into levels when a record is due.
pub struct SpectrumAccumulator<A> {
    /// Sequence number, number of results produced
    seq: u64,
    /// Accumulator for FFT averaging
    acc: Vec<A>,
    /// Counter for number of FFTs averaged
    accn: u32,
    /// The value of an empty accumulator bin
    zero: A,
    /// Parameter: information about FFT results
    fft_info: FftInfo,
    /// Parameter: Number of FFTs averaged
    averages: u32,
    /// Parameter: Output format for spectrum data
    outfmt: SpectrumFormat,
}

impl<A> View for SpectrumAccumulator<A> {
    type V = SpectrumState<A>;

    closed spec fn view(&self) -> SpectrumState<A> {
        SpectrumState {
            seq: self.seq,
            acc: self.acc@,
            frames: self.accn as nat,
            zero: self.zero,
            fft_info: self.fft_info,
            averages: self.averages,
            outfmt: self.outfmt,
        }
    }
}

impl<A> SpectrumAccumulator<A> {
    #[verifier::type_invariant]
    spec fn well_formed(self) -> bool {
        self.acc@.len() == self.fft_info.spec_result_bins()
    }
}

impl<A: Copy> SpectrumAccumulator<A> {
    /// Makes an empty accumulator that has produced no record.
    pub fn init(fft_info: FftInfo, averages: u32, outfmt: SpectrumFormat, zero: A) -> (accu: Self)
        ensures
            accu@ == SpectrumState::initial(fft_info, averages, outfmt, zero),
    {
        let bins = fft_info.result_bins();
        let mut acc: Vec<A> = Vec::with_capacity(bins);
        let mut k: usize = 0;
        while k < bins
            invariant
                k <= bins,
                acc@.len() == k,
                forall|j: int| 0 <= j < k ==> acc@[j] == zero,
            decreases bins - k,
        {
            acc.push(zero);
            k += 1;
        }
        assert(acc@ =~= Seq::new(fft_info.spec_result_bins() as nat, |k: int| zero));
        SpectrumAccumulator { seq: 0, acc, accn: 0, zero, fft_info, averages, outfmt }
    }

    /// Number of records produced.
    pub fn seq(&self) -> (seq: u64)
        ensures
            seq == self@.seq,
    {
        self.seq
    }

    /// Number of FFTs counted since the last record.
    pub fn accumulated(&self) -> (frames: u32)
        ensures
            frames == self@.frames,
    {
        self.accn
    }

    /// Number of bins: as many as an FFT result stores.
    pub fn bins(&self) -> (bins: usize)
        ensures
            bins == self@.acc.len(),
            bins == self@.fft_info.spec_result_bins(),
    {
        proof {
            use_type_invariant(self);
        }
        self.acc.len()
    }

    /// Output format of the records.
    pub fn format(&self) -> (outfmt: SpectrumFormat)
        ensures
            outfmt == self@.outfmt,
    {
        self.outfmt
    }

    /// Whether enough FFTs have been counted for a record.
    pub fn is_due(&self) -> (due: bool)
        ensures
            due == self@.due(),
    {
        self.accn > 0 && self.accn >= self.averages
    }

    /// The accumulated value of bin `k`.
    pub fn bin(&self, k: usize) -> (value: A)
        requires
            k < self@.acc.len(),
        ensures
            value == self@.acc[k as int],
    {
        self.acc[k]
    }

    /// Replaces the accumulated value of bin `k`.
    pub fn set_bin(&mut self, k: usize, value: A)
        requires
            k < old(self)@.acc.len(),
        ensures
            final(self)@ == (SpectrumState {
                acc: old(self)@.acc.update(k as int, value),
                ..old(self)@
            }),
    {
        proof {
            use_type_invariant(&*self);
        }
        self.acc[k] = value;
    }

    /// Counts one FFT as accumulated, and says whether a record is due now.
    ///
    /// A record that is due is emitted before the next FFT is counted.
    pub fn count_frame(&mut self) -> (due: bool)
        requires
            !old(self)@.due(),
        ensures
            final(self)@ == old(self)@.after_frames(1),
            due == final(self)@.due(),
    {
        proof {
            use_type_invariant(&*self);
        }
        // Count the number of FFTs accumulated
        self.accn += 1;
        self.accn >= self.averages
    }

    /// Frames the record that is due, and starts the next average.
    ///
    /// `levels` holds one level per bin: for the 8-bit format twice the power
    /// in dB plus 250, for the 16-bit format twenty times the power in dB
    /// plus 4000, each rounded to an integer.  The record is the header with
    /// this accumulator's sequence number, then the levels clamped to the
    /// range of the format.  After it the accumulator is empty, no FFT is
    /// counted, and the sequence number is one more.
    pub fn emit(&mut self, metadata: &Metadata, levels: &[i64]) -> (record: Vec<u8>)
        requires
            old(self)@.due(),
            old(self)@.seq < u64::MAX,
            levels@.len() == old(self)@.acc.len(),
        ensures
            record@ == spectrum_record(old(self)@.seq, *metadata, old(self)@.outfmt, levels@),
            final(self)@ == old(self)@.flushed(),
    {
        proof {
            use_type_invariant(&*self);
        }
        let outfmt = self.outfmt;
        let mut outbuf: Vec<u8> = vec![0u8; METADATA_LEN];
        let mut offset: usize = 0;
        let ghost header = metadata_header(self.seq, metadata.systemtime);
        proof {
            lemma_metadata_header_len(self.seq, metadata.systemtime);
        }

        // The buffer holds exactly the header, so this cannot fail.
        let framed = serialize_metadata(outbuf.as_mut_slice(), &mut offset, metadata, self.seq);
        assert(framed is Ok);
        assert(outbuf@ =~= header);

        let mut k: usize = 0;
        while k < levels.len()
            invariant
                k <= levels@.len(),
                outbuf@ == header + payload(outfmt, levels@.subrange(0, k as int)),
            decreases levels@.len() - k,
        {
            let ghost done = levels@.subrange(0, k as int);
            let ghost more = levels@.subrange(0, k as int + 1);
            proof {
                assert(more.drop_last() =~= done);
                assert(more.last() == levels@[k as int]);
            }
            match outfmt {
                SpectrumFormat::U16 => {
                    // quantize to 0.05 dB per LSB, full scale at 4000, clamp to 12 bits
                    let o = quantize_u16(levels[k]);
                    // This could be changed to little endian for consistency
                    // with the rest of the format.
                    assert(o >> 8 == o / 256 && o & 0xFF == o % 256 && o / 256 < 256)
                        by (bit_vector)
                        requires
                            o <= 4095,
                    ;
                    let high = (o >> 8) as u8;
                    let low = (o & 0xFF) as u8;
                    proof {
                        reveal_with_fuel(be_bytes, 3);
                        assert(level_bytes(outfmt, levels@[k as int]) =~= seq![high, low]);
                    }
                    outbuf.push(high);
                    outbuf.push(low);
                },
                SpectrumFormat::U8 => {
                    // quantize to 0.5 dB per LSB, full scale at 250
                    let o = quantize_u8(levels[k]);
                    proof {
                        reveal_with_fuel(be_bytes, 2);
                        assert(level_bytes(outfmt, levels@[k as int]) =~= seq![o]);
                    }
                    outbuf.push(o);
                },
            }
            assert(outbuf@ =~= header + payload(outfmt, more));
            k += 1;
        }
        assert(levels@.subrange(0, k as int) =~= levels@);

        // Reset accumulator
        let bins = self.acc.len();
        let mut j: usize = 0;
        while j < bins
            invariant
                j <= bins,
                bins == self.acc@.len(),
                self.acc@.len() == old(self).acc@.len(),
                self.acc@.len() == self.fft_info.spec_result_bins(),
                self.zero == old(self).zero,
                self.seq == old(self).seq,
                self.accn == old(self).accn,
                self.fft_info == old(self).fft_info,
                self.averages == old(self).averages,
                self.outfmt == old(self).outfmt,
                forall|i: int| 0 <= i < j ==> self.acc@[i] == self.zero,
            decreases bins - j,
        {
            let zero = self.zero;
            self.acc[j] = zero;
            j += 1;
        }
        self.accn = 0;
        self.seq += 1;
        assert(self.acc@ =~= Seq::new(old(self).acc@.len(), |k: int| old(self).zero));
        outbuf
    }
}

} // verus!
