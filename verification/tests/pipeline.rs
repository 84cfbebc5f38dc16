use rustfft::num_complex::Complex;
use rustfft::FftPlanner;
use spektri::data::{FftInfo, Metadata, Timestamp};
use spektri::fcfb::{bin_numbers, ComplexBits, Fcfb};
use spektri::fftutil::Bin;
use spektri::framer::Framer;
use spektri::inputformats::{
    bytes_per_input_sample, convert_to_cf32, input_format_scaling, InputFormat, RawComplex,
    RawSample,
};

fn to_float(sample: RawSample) -> f32 {
    match sample {
        RawSample::Unsigned8(v) => v as f32 - 127.4,
        RawSample::Signed8(v) => v as f32,
        RawSample::Signed16(v) => v as f32,
        RawSample::Float32(bits) => f32::from_bits(bits),
    }
}

fn value(bin: Bin<Complex<f32>>) -> Complex<f32> {
    if bin.conjugate {
        bin.value.conj()
    } else {
        bin.value
    }
}

fn raised_cosine_weights(size: usize) -> Vec<f32> {
    let f = (2.0 * std::f32::consts::PI) / size as f32;
    (0..size).map(|i| 0.5 - 0.5 * ((i as f32) * f).cos()).collect()
}

/// Feeds a complex tone of `tone` cycles per FFT through a filter of 16 bins
/// around bin 8 of an FFT of 64 bins, as 16-bit samples, and gives the
/// samples that come out.
fn filtered_tone(tone: i64, blocks: usize) -> Vec<Complex<f32>> {
    let fft_size = 64usize;
    let ffts_per_buf = 3usize;
    let fmt = InputFormat::Cs16le;
    let scaling = 1.0 / input_format_scaling(fmt) as f32;
    let w = scaling / fft_size as f32;

    let zero = Complex { re: 0.0f32, im: 0.0 };
    let mut framer = Framer::new(fft_size, ffts_per_buf, zero).unwrap();
    let size = framer.size();
    let raw_len = size.raw_bytes(bytes_per_input_sample(fmt)).unwrap();
    assert_eq!(raw_len, 4 * 48 * 3);

    let mut fb: Fcfb<Vec<f32>> = Fcfb::init(FftInfo { size: fft_size, complex: true });
    let bn = bin_numbers(4, 2).unwrap();
    assert_eq!((bn.first, bn.bins), (0, 16));
    fb.add_filter(Some(bn), raised_cosine_weights(bn.bins)).unwrap();

    let fft = FftPlanner::new().plan_fft_forward(fft_size);
    let ifft = FftPlanner::new().plan_fft_inverse(bn.bins);
    let mut out = Vec::new();
    let mut t = 0i64;
    for _ in 0..blocks {
        let mut raw = Vec::with_capacity(raw_len);
        for _ in 0..size.new {
            let phase = 2.0 * std::f64::consts::PI * ((tone * t) % 64) as f64 / 64.0;
            raw.extend_from_slice(&((phase.cos() * 32767.0).round() as i16).to_le_bytes());
            raw.extend_from_slice(&((phase.sin() * 32767.0).round() as i16).to_le_bytes());
            t += 1;
        }
        let none = RawSample::Signed16(0);
        let mut decoded = vec![RawComplex { re: none, im: none }; size.new];
        convert_to_cf32(&raw, &mut decoded, fmt);
        let fresh: Vec<Complex<f32>> =
            decoded.iter().map(|c| Complex { re: to_float(c.re), im: to_float(c.im) }).collect();
        let seq = framer.ingest(&fresh).unwrap();
        let metadata = Metadata { seq, systemtime: Timestamp::BeforeEpoch };

        let fft_results: Vec<Vec<Complex<f32>>> = (0..ffts_per_buf)
            .map(|i| {
                let mut buf: Vec<Complex<f32>> = framer.window(i).iter().map(|v| v * w).collect();
                fft.process(&mut buf);
                buf
            })
            .collect();

        let filter = &mut fb.filters[0];
        filter.begin_record(&metadata);
        for fft_result in fft_results.iter() {
            let mut buf: Vec<Complex<f32>> = filter
                .dsp
                .taps(fft_result)
                .iter()
                .map(|tap| value(tap.bin) * filter.output[tap.weight])
                .collect();
            ifft.process(&mut buf);
            let bits: Vec<ComplexBits> =
                buf.iter().map(|v| ComplexBits { re: v.re.to_bits(), im: v.im.to_bits() }).collect();
            filter.push_output(&bits);
        }
        assert_eq!(u64::from_le_bytes(filter.outbuf[0..8].try_into().unwrap()), seq);
        assert_eq!(filter.outbuf.len(), 24 + 3 * 12 * 8);
        for c in filter.outbuf[24..].chunks(8) {
            out.push(Complex {
                re: f32::from_le_bytes(c[0..4].try_into().unwrap()),
                im: f32::from_le_bytes(c[4..8].try_into().unwrap()),
            });
        }
        fb.prune();
    }
    out
}

#[test]
fn tone_inside_the_filter_comes_out_at_baseband() {
    // The filter is centered at 8 cycles per FFT and 16 wide.  A tone at 10
    // comes out at 10 - 8 = 2 cycles per 16 samples.
    let out = filtered_tone(10, 3);
    assert_eq!(out.len(), 3 * 3 * 12);
    let amplitude = raised_cosine_weights(16)[10];
    // The first window begins with the fill, so look at what follows it.
    let settled = &out[12..];
    let step = Complex::from_polar(1.0f32, 2.0 * std::f32::consts::PI * 2.0 / 16.0);
    for pair in settled.windows(2) {
        assert!((pair[0].norm() - amplitude).abs() < 1e-3);
        // Contiguous also from window to window and from block to block.
        assert!((pair[1] - pair[0] * step).norm() < 1e-3);
    }
}

#[test]
fn tone_below_the_center_comes_out_at_a_negative_frequency() {
    let out = filtered_tone(5, 2);
    let amplitude = raised_cosine_weights(16)[5];
    let step = Complex::from_polar(1.0f32, -2.0 * std::f32::consts::PI * 3.0 / 16.0);
    for pair in out[12..].windows(2) {
        assert!((pair[0].norm() - amplitude).abs() < 1e-3);
        assert!((pair[1] - pair[0] * step).norm() < 1e-3);
    }
}

#[test]
fn tone_outside_the_filter_is_suppressed() {
    for tone in [-3i64, 16, 20, 40, 63] {
        let out = filtered_tone(tone.rem_euclid(64), 2);
        // 60 dB below the input.
        assert!(out[12..].iter().all(|v| v.norm() < 1e-3));
    }
}
