//! Fast-convolution filter bank
//!
//! A filter takes a range of bins of each FFT result, weights them, and
//! transforms them back with a smaller inverse FFT.  Because the forward
//! FFTs overlap by a quarter, the middle three quarters of each inverse FFT
//! are contiguous samples of the filtered signal.
//!
//! This module chooses the bins and their places, keeps the middle of each
//! result, and frames the records.  The weights, the inverse FFT and all
//! arithmetic on samples are the caller's: a sample passes through here as an
//! opaque `T` on the way in and as the bits of two floats on the way out.

use crate::data::{
    lemma_metadata_header_len,
    metadata_header,
    serialize_metadata,
    FftInfo,
    Metadata,
};
use crate::fftutil::{bin_of, get_bin, lemma_every_bin_in_reach, Bin};
use crate::wire::{le_bytes, lemma_le_bytes_len, write_u32_le};
use vstd::prelude::*;

verus! {

/// IFFT size must be a multiple of this, so that a quarter of it is a whole
/// number of samples.
pub const BIN_MULTIPLE: isize = 4;

/// The bins that a filter uses.
#[derive(Clone, Copy, Debug, PartialEq, Eq, Structural)]
pub struct BinNumbers {
    /// IFFT size, number of bins to use
    pub bins: usize,
    /// Number of the first bin
    pub first: isize,
}

impl BinNumbers {
    /// Whether a filter can be made of these bins: their number is positive
    /// and a multiple of four, and the number of each is an `isize`.
    pub open spec fn is_valid(self) -> bool {
        &&& 0 < self.bins <= isize::MAX
        &&& self.bins % 4 == 0
        &&& self.first + self.bins <= isize::MAX
    }

    /// Number of the bin in the middle, which becomes the frequency zero of
    /// the output.
    pub open spec fn spec_center(self) -> int {
        self.first + self.bins / 2
    }

    /// Whether a filter can be made of these bins.
    pub fn valid(&self) -> (valid: bool)
        ensures
            valid == self.is_valid(),
    {
        self.bins > 0 && self.bins <= isize::MAX as usize && self.bins % 4 == 0 && self.first
            <= isize::MAX - self.bins as isize
    }

    /// Number of the bin in the middle.
    pub fn center(&self) -> (center: isize)
        requires
            self.is_valid(),
        ensures
            center == self.spec_center(),
    {
        self.first + (self.bins / 2) as isize
    }
}

/// The bins of a filter that is `quarter_bins` times four bins wide around
/// the bin `quarter_center` times four, where there is such a filter.
pub open spec fn mapping(quarter_bins: int, quarter_center: int) -> Option<BinNumbers> {
    let bins = 4 * quarter_bins;
    let first = 4 * quarter_center - bins / 2;
    if 0 < bins <= isize::MAX && isize::MIN <= first && first + bins <= isize::MAX {
        Some(BinNumbers { bins: bins as usize, first: first as isize })
    } else {
        None
    }
}

/// Makes the bin numbers of a filter from its width and its center, both
/// counted in groups of four bins.
///
/// The width of a filter is its output sample rate divided by the spacing of
/// the bins, and its center is the distance of its center frequency from
/// that of the input, divided by the same.  Both are rounded to the nearest
/// multiple of four, and this function takes the multiples.  There is no
/// filter where the width is not positive, or where a bin number is too large
/// to be counted.
pub fn bin_numbers(quarter_bins: isize, quarter_center: isize) -> (bn: Option<BinNumbers>)
    ensures
        bn == mapping(quarter_bins as int, quarter_center as int),
        bn is Some ==> bn->Some_0.is_valid(),
{
    let bins = match quarter_bins.checked_mul(BIN_MULTIPLE) {
        Some(bins) => bins,
        None => {
            return None;
        },
    };
    // Center bin number
    let center = match quarter_center.checked_mul(BIN_MULTIPLE) {
        Some(center) => center,
        None => {
            return None;
        },
    };
    if bins > 0 {
        match center.checked_sub(bins / 2) {
            Some(first) => {
                if first <= isize::MAX - bins {
                    Some(BinNumbers { bins: bins as usize, first })
                } else {
                    None
                }
            },
            None => None,
        }
    } else {
        None
    }
}

/// Round trip of a mapping: the width and the center that bin numbers stand
/// for are the ones they were made from.
pub proof fn lemma_mapping_round_trip(quarter_bins: int, quarter_center: int)
    requires
        mapping(quarter_bins, quarter_center) is Some,
    ensures
        mapping(quarter_bins, quarter_center)->Some_0.is_valid(),
        mapping(quarter_bins, quarter_center)->Some_0.bins == 4 * quarter_bins,
        mapping(quarter_bins, quarter_center)->Some_0.spec_center() == 4 * quarter_center,
{
}

/// Why a filter was not made.
#[derive(Clone, Copy, Debug, PartialEq, Eq, Structural)]
pub enum FilterError {
    /// No filter has the requested sample rate and center frequency.
    InvalidBinMapping,
    /// The FFT has no bins.
    InvalidFftSize,
}

/// One input of the inverse FFT of a filter.
#[derive(Clone, Copy, Debug)]
pub struct Tap<T> {
    /// Which weight of the frequency response applies.
    pub weight: usize,
    /// The bin of the FFT result that is weighted.
    pub bin: Bin<T>,
}

/// The bits of a complex sample of two 32-bit floats.
#[derive(Clone, Copy, Debug, PartialEq, Eq, Structural)]
pub struct ComplexBits {
    pub re: u32,
    pub im: u32,
}

/// The place in the input of an inverse FFT of `bins` bins where bin `i` of
/// the filter goes.  The rotation by half the size moves the middle of the
/// filter to the frequency zero.
pub open spec fn rotated(i: int, bins: int) -> int {
    (i + bins / 2) % bins
}

/// The input of the inverse FFT of a filter: bin `i` of the filter, which is
/// bin `first + i` of the FFT result, stands at the rotated place and gets
/// the weight `i`.
pub open spec fn is_ifft_input<T>(
    taps: Seq<Tap<T>>,
    fft_result: Seq<T>,
    fft_size: int,
    bn: BinNumbers,
) -> bool {
    &&& taps.len() == bn.bins
    &&& forall|i: int|
        0 <= i < bn.bins ==> #[trigger] taps[rotated(i, bn.bins as int)] == (Tap {
            weight: i as usize,
            bin: bin_of(fft_result, fft_size, bn.first + i),
        })
}

/// Rotating twice by half of an even size leads back.
pub proof fn lemma_rotated_twice(i: int, bins: int)
    requires
        0 <= i < bins,
        bins % 2 == 0,
    ensures
        0 <= rotated(i, bins) < bins,
        rotated(rotated(i, bins), bins) == i,
{
    let half = bins / 2;
    if i < half {
        vstd::arithmetic::div_mod::lemma_small_mod((i + half) as nat, bins as nat);
        vstd::arithmetic::div_mod::lemma_mod_multiples_vanish(1, i, bins);
        vstd::arithmetic::div_mod::lemma_small_mod(i as nat, bins as nat);
        assert(i + half + half == bins * 1 + i);
    } else {
        vstd::arithmetic::div_mod::lemma_mod_multiples_vanish(1, i - half, bins);
        vstd::arithmetic::div_mod::lemma_small_mod((i - half) as nat, bins as nat);
        assert(i + half == bins * 1 + (i - half));
        vstd::arithmetic::div_mod::lemma_small_mod(i as nat, bins as nat);
    }
}

/// The part of an inverse FFT result that is kept: three quarters of it, from
/// an eighth on.  A quarter is lost to the overlap, half of it at each end.
pub open spec fn kept<T>(ifft_result: Seq<T>) -> Seq<T> {
    let bins = ifft_result.len() as int;
    ifft_result.subrange(bins / 8, bins / 8 + 3 * (bins / 4))
}

/// The bytes of complex samples: real and imaginary part of each as
/// little-endian 32-bit floats.
pub open spec fn waveform(samples: Seq<ComplexBits>) -> Seq<u8>
    decreases samples.len(),
{
    if samples.len() == 0 {
        Seq::empty()
    } else {
        waveform(samples.drop_last()) + le_bytes(samples.last().re as nat, 4) + le_bytes(
            samples.last().im as nat,
            4,
        )
    }
}

/// Every result of an inverse FFT of `bins` bins gives `3 * bins / 4`
/// samples, from the place `bins / 8` on.
pub proof fn lemma_kept_len<T>(ifft_result: Seq<T>)
    requires
        ifft_result.len() % 4 == 0,
    ensures
        4 * kept(ifft_result).len() == 3 * ifft_result.len(),
        forall|k: int|
            0 <= k < kept(ifft_result).len() ==> kept(ifft_result)[k] == ifft_result[
                ifft_result.len() / 8 + k],
{
}

/// A sample takes eight bytes.
pub proof fn lemma_waveform_len(samples: Seq<ComplexBits>)
    ensures
        waveform(samples).len() == 8 * samples.len(),
    decreases samples.len(),
{
    if samples.len() > 0 {
        lemma_waveform_len(samples.drop_last());
        lemma_le_bytes_len(samples.last().re as nat, 4);
        lemma_le_bytes_len(samples.last().im as nat, 4);
    }
}

/// The body of the record of a block: what is kept of each inverse FFT
/// result, one result after the other.
pub open spec fn block_waveform(ifft_results: Seq<Seq<ComplexBits>>) -> Seq<u8>
    decreases ifft_results.len(),
{
    if ifft_results.len() == 0 {
        Seq::empty()
    } else {
        block_waveform(ifft_results.drop_last()) + waveform(kept(ifft_results.last()))
    }
}

/// A block of `n` FFTs gives `n * 3 * bins / 4` samples of eight bytes each
/// to a filter of `bins` bins.
pub proof fn lemma_block_waveform_len(ifft_results: Seq<Seq<ComplexBits>>, bins: nat)
    requires
        bins % 4 == 0,
        forall|k: int| 0 <= k < ifft_results.len() ==> (#[trigger] ifft_results[k]).len() == bins,
    ensures
        block_waveform(ifft_results).len() == ifft_results.len() * (8 * (3 * (bins / 4))),
        4 * (3 * (bins / 4)) == 3 * bins,
    decreases ifft_results.len(),
{
    if ifft_results.len() > 0 {
        let rest = ifft_results.drop_last();
        assert forall|k: int| 0 <= k < rest.len() implies (#[trigger] rest[k]).len() == bins by {
            assert(rest[k] == ifft_results[k]);
        }
        lemma_block_waveform_len(rest, bins);
        lemma_kept_len(ifft_results.last());
        lemma_waveform_len(kept(ifft_results.last()));
        assert(ifft_results.len() * (8 * (3 * (bins / 4))) == rest.len() * (8 * (3 * (bins / 4)))
            + 8 * (3 * (bins / 4))) by (nonlinear_arith)
            requires
                ifft_results.len() == rest.len() + 1,
        ;
    }
}

/// What the signal processing of a filter holds.
pub struct FilterDspState {
    /// Whether the filter has nothing more to give.
    pub done: bool,
    /// Size of the FFT whose results are filtered.
    pub fft_size: usize,
    /// The bins of the filter.
    pub bn: BinNumbers,
}

/// DSP state of a filter.
///
/// This struct does not contain any I/O related things.
pub struct FilterDsp {
    done: bool,
    fft_size: usize,
    freq: isize,
    ifft_size: usize,
}

impl View for FilterDsp {
    type V = FilterDspState;

    closed spec fn view(&self) -> FilterDspState {
        FilterDspState {
            done: self.done,
            fft_size: self.fft_size,
            bn: BinNumbers { bins: self.ifft_size, first: self.freq },
        }
    }
}

impl FilterDsp {
    #[verifier::type_invariant]
    spec fn well_formed(self) -> bool {
        &&& self.fft_size > 0
        &&& (BinNumbers { bins: self.ifft_size, first: self.freq }).is_valid()
    }

    /// Makes the signal processing of a filter on the bins `bn` of an FFT of
    /// `fft_size` bins.
    pub fn init(fft_size: usize, bn: BinNumbers) -> (dsp: Result<Self, FilterError>)
        ensures
            fft_size == 0 ==> dsp == Err::<Self, FilterError>(FilterError::InvalidFftSize),
            fft_size > 0 && !bn.is_valid() ==> dsp == Err::<Self, FilterError>(
                FilterError::InvalidBinMapping,
            ),
            fft_size > 0 && bn.is_valid() ==> dsp is Ok && dsp->Ok_0@ == (FilterDspState {
                done: false,
                fft_size,
                bn,
            }),
    {
        if fft_size == 0 {
            Err(FilterError::InvalidFftSize)
        } else if !bn.valid() {
            Err(FilterError::InvalidBinMapping)
        } else {
            Ok(Self { done: false, fft_size, freq: bn.first, ifft_size: bn.bins })
        }
    }

    /// Whether the filter has nothing more to give.
    pub fn is_done(&self) -> (done: bool)
        ensures
            done == self@.done,
    {
        self.done
    }

    /// Marks the filter as done: it is removed from its bank after the block.
    pub fn finish(&mut self)
        ensures
            final(self)@ == (FilterDspState { done: true, ..old(self)@ }),
    {
        proof {
            use_type_invariant(&*self);
        }
        self.done = true;
    }

    /// The bins of the filter, which are valid.
    pub fn bin_numbers(&self) -> (bn: BinNumbers)
        ensures
            bn == self@.bn,
            bn.is_valid(),
            self@.fft_size > 0,
    {
        proof {
            use_type_invariant(self);
        }
        BinNumbers { bins: self.ifft_size, first: self.freq }
    }

    /// Size of the FFT whose results are filtered.
    pub fn fft_size(&self) -> (fft_size: usize)
        ensures
            fft_size == self@.fft_size,
    {
        self.fft_size
    }

    /// Chooses the input of the inverse FFT from an FFT result.
    ///
    /// Place `(i + bins / 2) % bins` of the input is bin `first + i` of the
    /// FFT result, to be multiplied by the weight `i`.  Bin numbers below
    /// zero or beyond the FFT are taken modulo its size, and for a real input
    /// the bins that are not stored come as conjugates.
    pub fn taps<T: Copy>(&self, fft_result: &[T]) -> (taps: Vec<Tap<T>>)
        requires
            self@.fft_size < 2 * fft_result@.len(),
        ensures
            is_ifft_input(taps@, fft_result@, self@.fft_size as int, self@.bn),
    {
        proof {
            use_type_invariant(self);
        }
        let fft_size = self.fft_size;
        let ifft_size = self.ifft_size;
        let freq = self.freq;

        let ifft_shift = ifft_size / 2;

        let mut taps: Vec<Tap<T>> = Vec::with_capacity(ifft_size);
        let mut j: usize = 0;
        while j < ifft_size
            invariant
                j <= ifft_size,
                taps@.len() == j,
                ifft_shift == ifft_size / 2,
                0 < fft_size < 2 * fft_result@.len(),
                (BinNumbers { bins: ifft_size, first: freq }).is_valid(),
                forall|k: int|
                    0 <= k < j ==> #[trigger] taps@[k] == (Tap {
                        weight: rotated(k, ifft_size as int) as usize,
                        bin: bin_of(
                            fft_result@,
                            fft_size as int,
                            freq + rotated(k, ifft_size as int),
                        ),
                    }),
            decreases ifft_size - j,
        {
            let i = (j + ifft_shift) % ifft_size;
            proof {
                lemma_every_bin_in_reach(
                    fft_result@.len() as int,
                    fft_size as int,
                    freq as int + i as int,
                );
            }
            taps.push(Tap { weight: i, bin: get_bin(fft_result, fft_size, freq + (i as isize)) });
            j += 1;
        }
        proof {
            assert forall|i: int| 0 <= i < ifft_size implies #[trigger] taps@[rotated(
                i,
                ifft_size as int,
            )] == (Tap {
                weight: i as usize,
                bin: bin_of(fft_result@, fft_size as int, freq + i),
            }) by {
                lemma_rotated_twice(i, ifft_size as int);
            }
        }
        taps
    }
}

/// Appends bytes to a record.
fn append(record: &mut Vec<u8>, bytes: &[u8])
    ensures
        final(record)@ == old(record)@ + bytes@,
{
    let mut k: usize = 0;
    while k < bytes.len()
        invariant
            k <= bytes@.len(),
            record@ == old(record)@ + bytes@.subrange(0, k as int),
        decreases bytes@.len() - k,
    {
        record.push(bytes[k]);
        assert(record@ =~= old(record)@ + bytes@.subrange(0, k as int + 1));
        k += 1;
    }
    assert(bytes@.subrange(0, k as int) =~= bytes@);
}

/// One filter
pub struct Filter<O> {
    /// Signal processing of the filter.
    pub dsp: FilterDsp,
    /// The record of the current block, as far as it is written.
    pub outbuf: Vec<u8>,
    /// Whatever the owner attaches to the filter: where its records go, and
    /// what it needs to compute them.
    pub output: O,
}

impl<O> Filter<O> {
    /// Makes a filter with an empty record.
    pub fn new(dsp: FilterDsp, output: O) -> (filter: Self)
        ensures
            filter.dsp == dsp,
            filter.outbuf@ == Seq::<u8>::empty(),
            filter.output == output,
    {
        Filter { dsp, outbuf: Vec::new(), output }
    }

    /// Starts the record of a block: it holds the header and nothing else.
    ///
    /// The sequence number of the record is that of the block: one record is
    /// produced for each processing block, which gives all filters a common
    /// numbering.
    pub fn begin_record(&mut self, metadata: &Metadata)
        ensures
            final(self).outbuf@ == metadata_header(metadata.seq, metadata.systemtime),
            final(self).dsp == old(self).dsp,
            final(self).output == old(self).output,
    {
        let mut header = [0u8; 24];
        let mut offset: usize = 0;
        proof {
            lemma_metadata_header_len(metadata.seq, metadata.systemtime);
        }
        // The buffer holds exactly the header, so this cannot fail.
        let framed = serialize_metadata(&mut header, &mut offset, metadata, metadata.seq);
        assert(framed is Ok);
        assert(header@ =~= metadata_header(metadata.seq, metadata.systemtime));
        self.outbuf.clear();
        append(&mut self.outbuf, &header);
        assert(self.outbuf@ =~= header@);
    }

    /// Appends the result of one inverse FFT to the record: the samples that
    /// are kept, each as two little-endian 32-bit floats.
    pub fn push_output(&mut self, ifft_result: &[ComplexBits])
        ensures
            final(self).outbuf@ == old(self).outbuf@ + waveform(kept(ifft_result@)),
            final(self).dsp == old(self).dsp,
            final(self).output == old(self).output,
    {
        let ifft_size = ifft_result.len();
        // fixed 25% overlap
        let start = ifft_size / 8;
        let end = start + 3 * (ifft_size / 4);

        let mut k: usize = start;
        while k < end
            invariant
                start <= k <= end <= ifft_result@.len(),
                self.dsp == old(self).dsp,
                self.output == old(self).output,
                self.outbuf@ == old(self).outbuf@ + waveform(
                    ifft_result@.subrange(start as int, k as int),
                ),
            decreases end - k,
        {
            let v = ifft_result[k];
            let mut bytes = [0u8; 8];
            let mut offset: usize = 0;
            proof {
                lemma_le_bytes_len(v.re as nat, 4);
                lemma_le_bytes_len(v.im as nat, 4);
            }
            // The buffer holds exactly the two numbers, so these cannot fail.
            let re_written = write_u32_le(&mut bytes, &mut offset, v.re);
            let im_written = write_u32_le(&mut bytes, &mut offset, v.im);
            assert(re_written is Ok && im_written is Ok);
            assert(bytes@ =~= le_bytes(v.re as nat, 4) + le_bytes(v.im as nat, 4));
            append(&mut self.outbuf, &bytes);
            proof {
                let more = ifft_result@.subrange(start as int, k as int + 1);
                assert(more.drop_last() =~= ifft_result@.subrange(start as int, k as int));
                assert(more.last() == v);
                assert(self.outbuf@ =~= old(self).outbuf@ + waveform(more));
            }
            k += 1;
        }
    }
}

/// Bank of filters
pub struct Fcfb<O> {
    /// Information about the FFT results that are filtered.
    pub fft_info: FftInfo,
    /// The filters, in the order in which they were added.
    pub filters: Vec<Filter<O>>,
}

/// Whether a filter stays in its bank after a block.
pub open spec fn stays<O>(filter: Filter<O>) -> bool {
    !filter.dsp@.done
}

impl<O> Fcfb<O> {
    /// Makes a bank without filters.
    pub fn init(fft_info: FftInfo) -> (fb: Self)
        ensures
            fb.fft_info == fft_info,
            fb.filters@ == Seq::<Filter<O>>::empty(),
    {
        Self { fft_info, filters: Vec::new() }
    }

    /// Adds a filter on the bins `mapping`, with `output` attached.
    ///
    /// Where there is no mapping, or no filter can be made of it, the error
    /// says so and the bank stays as it is.
    pub fn add_filter(&mut self, mapping: Option<BinNumbers>, output: O) -> (added: Result<
        (),
        FilterError,
    >)
        ensures
            final(self).fft_info == old(self).fft_info,
            added is Ok <==> mapping is Some && mapping->Some_0.is_valid() && old(
                self,
            ).fft_info.size > 0,
            added is Ok ==> {
                let filter = final(self).filters@.last();
                &&& final(self).filters@.len() == old(self).filters@.len() + 1
                &&& final(self).filters@.drop_last() == old(self).filters@
                &&& filter.dsp@ == (FilterDspState {
                    done: false,
                    fft_size: old(self).fft_info.size,
                    bn: mapping->Some_0,
                })
                &&& filter.outbuf@ == Seq::<u8>::empty()
                &&& filter.output == output
            },
            added is Err ==> final(self).filters@ == old(self).filters@,
            added is Err ==> added->Err_0 == (if mapping is Some && old(self).fft_info.size == 0 {
                FilterError::InvalidFftSize
            } else {
                FilterError::InvalidBinMapping
            }),
    {
        if let Some(bn) = mapping {
            match FilterDsp::init(self.fft_info.size, bn) {
                Ok(filter) => {
                    self.filters.push(Filter::new(filter, output));
                    assert(self.filters@.drop_last() =~= old(self).filters@);
                    Ok(())
                },
                Err(error) => Err(error),
            }
        } else {
            Err(FilterError::InvalidBinMapping)
        }
    }

    /// Remove filters that are done.  The others keep their order.
    pub fn prune(&mut self)
        ensures
            final(self).fft_info == old(self).fft_info,
            final(self).filters@ == old(self).filters@.filter(|f: Filter<O>| stays(f)),
    {
        let ghost before = self.filters@;
        let ghost keep = |f: Filter<O>| stays(f);
        let ghost mut seen: int = 0;
        let mut i: usize = 0;
        proof {
            reveal_with_fuel(Seq::filter, 1);
            assert(before.subrange(0, 0).filter(keep) =~= Seq::<Filter<O>>::empty());
        }
        while i < self.filters.len()
            invariant
                self.fft_info == old(self).fft_info,
                before == old(self).filters@,
                keep == |f: Filter<O>| stays(f),
                0 <= i <= self.filters@.len(),
                i <= seen <= before.len(),
                self.filters@.len() - i == before.len() - seen,
                self.filters@.subrange(0, i as int) == before.subrange(0, seen).filter(keep),
                self.filters@.subrange(i as int, self.filters@.len() as int) == before.subrange(
                    seen,
                    before.len() as int,
                ),
            decreases self.filters@.len() - i,
        {
            let ghost current = self.filters@;
            proof {
                assert(current[i as int] == current.subrange(i as int, current.len() as int)[0]);
                assert(current[i as int] == before[seen]);
                assert(before.subrange(0, seen + 1) =~= before.subrange(0, seen).push(
                    before[seen],
                ));
                before.subrange(0, seen).lemma_filter_push(before[seen], keep);
            }
            if self.filters[i].dsp.is_done() {
                self.filters.remove(i);
                proof {
                    assert(self.filters@.subrange(0, i as int) =~= current.subrange(0, i as int));
                    assert(self.filters@.subrange(i as int, self.filters@.len() as int)
                        =~= current.subrange(i as int + 1, current.len() as int));
                    assert(current.subrange(i as int + 1, current.len() as int)
                        =~= current.subrange(i as int, current.len() as int).subrange(
                        1,
                        current.len() - i,
                    ));
                    assert(before.subrange(seen + 1, before.len() as int) =~= before.subrange(
                        seen,
                        before.len() as int,
                    ).subrange(1, before.len() - seen));
                    seen = seen + 1;
                }
            } else {
                proof {
                    assert(current.subrange(0, i as int + 1) =~= current.subrange(
                        0,
                        i as int,
                    ).push(current[i as int]));
                    assert(current.subrange(i as int + 1, current.len() as int)
                        =~= current.subrange(i as int, current.len() as int).subrange(
                        1,
                        current.len() - i,
                    ));
                    assert(before.subrange(seen + 1, before.len() as int) =~= before.subrange(
                        seen,
                        before.len() as int,
                    ).subrange(1, before.len() - seen));
                    seen = seen + 1;
                }
                i += 1;
            }
        }
        proof {
            assert(self.filters@.subrange(0, i as int) =~= self.filters@);
            assert(before.subrange(0, seen) =~= before);
        }
    }
}

} // verus!
