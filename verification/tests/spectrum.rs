use rustfft::num_complex::Complex;
use rustfft::FftPlanner;
use spektri::data::{FftInfo, Metadata, Timestamp};
use spektri::fftutil::{get_bin, Bin};
use spektri::spectrum::{
    hann_stencils, quantize_u16, quantize_u8, SpectrumAccumulator, SpectrumFormat,
};

fn time() -> Timestamp {
    Timestamp::SinceEpoch { secs: 1_600_000_000, nanosecs: 123_456_789 }
}

fn header(seq: u64) -> Vec<u8> {
    let mut h = Vec::new();
    h.extend_from_slice(&seq.to_le_bytes());
    h.extend_from_slice(&1_600_000_000u64.to_le_bytes());
    h.extend_from_slice(&123_456_789u32.to_le_bytes());
    h.extend_from_slice(&0u32.to_le_bytes());
    h
}

fn value(bin: Bin<Complex<f32>>) -> Complex<f32> {
    if bin.conjugate {
        bin.value.conj()
    } else {
        bin.value
    }
}

/// The forward FFT of one window with a rectangular window of the given sum.
fn forward(input: &[Complex<f32>], scaling: f32) -> Vec<Complex<f32>> {
    let w = scaling / input.len() as f32;
    let mut buf: Vec<Complex<f32>> = input.iter().map(|v| v * w).collect();
    FftPlanner::new().plan_fft_forward(input.len()).process(&mut buf);
    buf
}

/// Adds the power of one FFT result to the accumulator.
fn accumulate(accu: &mut SpectrumAccumulator<f32>, fft_result: &[Complex<f32>], fft_size: usize) {
    for (k, stencil) in hann_stencils(fft_result, fft_size).iter().enumerate() {
        let c = value(stencil.centre) - (value(stencil.below) + value(stencil.above)) * 0.5;
        accu.set_bin(k, accu.bin(k) + c.re * c.re + c.im * c.im);
    }
}

/// The levels of the accumulated powers, before clamping.
fn levels(accu: &SpectrumAccumulator<f32>) -> Vec<i64> {
    let db_plus = (accu.accumulated() as f32).log10() * -10.0;
    let steps = accu.format().steps_per_db() as f32;
    let zero = accu.format().zero_db() as f32;
    (0..accu.bins())
        .map(|k| {
            let db = accu.bin(k).log10() * 10.0 + db_plus;
            (db * steps + zero).round() as i64
        })
        .collect()
}

/// Runs FFT results through an accumulator and gives the records.
fn spectrum_records(
    fft_size: usize,
    averages: u32,
    outfmt: SpectrumFormat,
    inputs: &[Vec<Complex<f32>>],
) -> Vec<Vec<u8>> {
    let fft_info = FftInfo { size: fft_size, complex: true };
    let mut accu = SpectrumAccumulator::init(fft_info, averages, outfmt, 0.0f32);
    let mut records = Vec::new();
    for (block, input) in inputs.iter().enumerate() {
        let fft_result = forward(input, 1.0);
        accumulate(&mut accu, &fft_result, fft_size);
        if accu.count_frame() {
            let metadata = Metadata { seq: 1000 + block as u64, systemtime: time() };
            let levels = levels(&accu);
            records.push(accu.emit(&metadata, &levels));
        }
    }
    records
}

#[test]
fn stencils_of_a_complex_fft() {
    let result = [10, 11, 12, 13, 14];
    let stencils = hann_stencils(&result, 5);
    assert_eq!(stencils.len(), 5);
    let seen: Vec<(i32, i32, i32)> =
        stencils.iter().map(|s| (s.below.value, s.centre.value, s.above.value)).collect();
    assert_eq!(
        seen,
        vec![(14, 10, 11), (10, 11, 12), (11, 12, 13), (12, 13, 14), (13, 14, 10)]
    );
    assert!(stencils.iter().all(|s| !s.below.conjugate && !s.centre.conjugate && !s.above.conjugate));
}

#[test]
fn stencils_of_a_real_fft() {
    // An FFT of 8 real samples stores the bins 0 to 4.
    let result = ['a', 'b', 'c', 'd', 'e'];
    let stencils = hann_stencils(&result, 8);
    assert_eq!(stencils.len(), 5);
    // Bin -1 is the conjugate of bin 1.
    assert_eq!((stencils[0].below.value, stencils[0].below.conjugate), ('b', true));
    assert_eq!((stencils[0].centre.value, stencils[0].centre.conjugate), ('a', false));
    assert_eq!((stencils[0].above.value, stencils[0].above.conjugate), ('b', false));
    assert_eq!((stencils[2].below.value, stencils[2].centre.value, stencils[2].above.value), ('b', 'c', 'd'));
    // Bin 5 is the conjugate of bin 3.
    assert_eq!((stencils[4].below.value, stencils[4].below.conjugate), ('d', false));
    assert_eq!((stencils[4].centre.value, stencils[4].centre.conjugate), ('e', false));
    assert_eq!((stencils[4].above.value, stencils[4].above.conjugate), ('d', true));
}

#[test]
fn stencils_are_the_bins_around_each_bin() {
    for (len, fft_size) in [(1usize, 1usize), (2, 2), (2, 3), (3, 4), (6, 6), (9, 16), (16, 16)] {
        let result: Vec<usize> = (100..100 + len).collect();
        let stencils = hann_stencils(&result, fft_size);
        assert_eq!(stencils.len(), len);
        for (k, s) in stencils.iter().enumerate() {
            let k = k as isize;
            let below = get_bin(&result, fft_size, k - 1);
            let centre = get_bin(&result, fft_size, k);
            let above = get_bin(&result, fft_size, k + 1);
            assert_eq!((s.below.value, s.below.conjugate), (below.value, below.conjugate));
            assert_eq!((s.centre.value, s.centre.conjugate), (centre.value, centre.conjugate));
            assert_eq!((s.above.value, s.above.conjugate), (above.value, above.conjugate));
        }
    }
}

#[test]
fn quantization_clamps() {
    assert_eq!(quantize_u8(0), 0);
    assert_eq!(quantize_u8(-1), 0);
    assert_eq!(quantize_u8(250), 250);
    assert_eq!(quantize_u8(255), 255);
    assert_eq!(quantize_u8(256), 255);
    assert_eq!(quantize_u8(i64::MIN), 0);
    assert_eq!(quantize_u8(i64::MAX), 255);
    assert_eq!(quantize_u16(0), 0);
    assert_eq!(quantize_u16(-7), 0);
    assert_eq!(quantize_u16(4000), 4000);
    assert_eq!(quantize_u16(4095), 4095);
    assert_eq!(quantize_u16(4096), 4095);
    assert_eq!(quantize_u16(65536), 4095);
    assert_eq!(quantize_u16(i64::MIN), 0);
    assert_eq!(quantize_u16(i64::MAX), 4095);
}

#[test]
fn quantization_of_every_kind_of_power() {
    let powers = [
        0.0f32,
        -0.0,
        f32::MIN_POSITIVE,
        f32::MIN_POSITIVE / 4.0, // subnormal
        1.0e-30,
        1.0,
        3.0,
        f32::MAX,
        f32::INFINITY,
        f32::NAN,
        -1.0,
    ];
    for power in powers {
        let db = power.log10() * 10.0;
        let q8 = quantize_u8((db * 2.0 + 250.0).round() as i64);
        let q16 = quantize_u16((db * 20.0 + 4000.0).round() as i64);
        assert!(q16 <= 4095);
        // The same as clamping the float and then converting.
        assert_eq!(q8, (db * 2.0 + 250.0).round().max(0.0).min(255.0) as u8);
        assert_eq!(q16, (db * 20.0 + 4000.0).round().max(0.0).min(4095.0) as u16);
    }
    assert_eq!(quantize_u8((0.0f32.log10() * 20.0 + 250.0).round() as i64), 0);
    assert_eq!(quantize_u8((f32::INFINITY.log10() * 20.0 + 250.0).round() as i64), 255);
    assert_eq!(quantize_u16((f32::INFINITY.log10() * 200.0 + 4000.0).round() as i64), 4095);
    // 0 dB
    assert_eq!(quantize_u8((1.0f32.log10() * 20.0 + 250.0).round() as i64), 250);
    assert_eq!(quantize_u16((1.0f32.log10() * 200.0 + 4000.0).round() as i64), 4000);
    // 3 dB below: 0.5 dB and 0.05 dB per step
    assert_eq!(quantize_u8((-3.0f32 * 2.0 + 250.0).round() as i64), 244);
    assert_eq!(quantize_u16((-3.0f32 * 20.0 + 4000.0).round() as i64), 3940);
}

#[test]
fn format_scales() {
    assert_eq!(SpectrumFormat::U8.steps_per_db(), 2);
    assert_eq!(SpectrumFormat::U8.zero_db(), 250);
    assert_eq!(SpectrumFormat::U16.steps_per_db(), 20);
    assert_eq!(SpectrumFormat::U16.zero_db(), 4000);
}

#[test]
fn accumulator_starts_empty() {
    let accu = SpectrumAccumulator::init(FftInfo { size: 8, complex: false }, 3, SpectrumFormat::U16, 0u32);
    assert_eq!(accu.bins(), 5);
    assert_eq!(accu.seq(), 0);
    assert_eq!(accu.accumulated(), 0);
    assert_eq!(accu.format(), SpectrumFormat::U16);
    assert!(!accu.is_due());
    assert!((0..5).all(|k| accu.bin(k) == 0));
    let accu = SpectrumAccumulator::init(FftInfo { size: 8, complex: true }, 3, SpectrumFormat::U8, 0u32);
    assert_eq!(accu.bins(), 8);
}

#[test]
fn one_record_for_every_three_frames() {
    let mut accu = SpectrumAccumulator::init(FftInfo { size: 4, complex: true }, 3, SpectrumFormat::U8, 0u32);
    let metadata = Metadata { seq: 77, systemtime: time() };
    let mut emitted = 0;
    for frame in 1..=9u32 {
        for k in 0..4 {
            accu.set_bin(k, accu.bin(k) + 1);
        }
        let due = accu.count_frame();
        assert_eq!(due, frame % 3 == 0);
        assert_eq!(due, accu.is_due());
        if due {
            assert_eq!(accu.accumulated(), 3);
            assert!((0..4).all(|k| accu.bin(k) == 3));
            let record = accu.emit(&metadata, &[10, 20, 30, 40]);
            emitted += 1;
            // The record carries the number of the record, not of the block.
            let mut expected = header(emitted - 1);
            expected.extend_from_slice(&[10, 20, 30, 40]);
            assert_eq!(record, expected);
            assert_eq!(accu.seq(), emitted);
            assert_eq!(accu.accumulated(), 0);
            assert!((0..4).all(|k| accu.bin(k) == 0));
            assert!(!accu.is_due());
        }
    }
    assert_eq!(emitted, 3);
}

#[test]
fn averaging_over_no_frame_is_averaging_over_one() {
    let mut accu = SpectrumAccumulator::init(FftInfo { size: 2, complex: true }, 0, SpectrumFormat::U8, 0u8);
    assert!(!accu.is_due());
    assert!(accu.count_frame());
    assert_eq!(accu.accumulated(), 1);
    let metadata = Metadata { seq: 0, systemtime: Timestamp::BeforeEpoch };
    let record = accu.emit(&metadata, &[1, 2]);
    assert_eq!(record.len(), 26);
    assert_eq!(&record[0..24], &[0u8; 24]);
    assert!(accu.count_frame());
}

#[test]
fn records_of_16_bit_levels_are_big_endian() {
    let mut accu = SpectrumAccumulator::init(FftInfo { size: 4, complex: false }, 1, SpectrumFormat::U16, 0u8);
    assert_eq!(accu.bins(), 3);
    assert!(accu.count_frame());
    let metadata = Metadata { seq: 5, systemtime: time() };
    let record = accu.emit(&metadata, &[0x0123, 5000, -3]);
    let mut expected = header(0);
    expected.extend_from_slice(&[0x01, 0x23, 0x0f, 0xff, 0x00, 0x00]);
    assert_eq!(record, expected);
    assert_eq!(record.len(), 24 + 2 * 3);
}

#[test]
fn records_of_8_bit_levels_are_clamped() {
    let mut accu = SpectrumAccumulator::init(FftInfo { size: 4, complex: true }, 1, SpectrumFormat::U8, 0u8);
    assert!(accu.count_frame());
    let metadata = Metadata { seq: 5, systemtime: time() };
    let record = accu.emit(&metadata, &[i64::MIN, 250, 256, i64::MAX]);
    let mut expected = header(0);
    expected.extend_from_slice(&[0, 250, 255, 255]);
    assert_eq!(record, expected);
    assert_eq!(record.len(), 24 + 4);
}

#[test]
fn spectrum_of_silence() {
    // N=16, K=1, A=1, 16 zero samples, rectangular window, scaling 1.
    let input = vec![Complex { re: 0.0f32, im: 0.0 }; 16];
    let records = spectrum_records(16, 1, SpectrumFormat::U8, &[input]);
    assert_eq!(records.len(), 1);
    let mut expected = header(0);
    expected.extend_from_slice(&[0u8; 16]);
    assert_eq!(records[0], expected);
}

#[test]
fn spectrum_of_an_impulse() {
    // N=16, K=1, A=1, one-hot at the first sample.  All bins of the FFT are
    // equal, so each bin minus half the sum of its neighbours is zero, also
    // at the edges, which wrap around.
    let mut input = vec![Complex { re: 0.0f32, im: 0.0 }; 16];
    input[0].re = 1.0;
    let fft_result = forward(&input, 1.0);
    assert!(fft_result.iter().all(|v| (v.norm() - 1.0 / 16.0).abs() < 1e-6));
    let records = spectrum_records(16, 1, SpectrumFormat::U8, &[input]);
    assert_eq!(records.len(), 1);
    let mut expected = header(0);
    expected.extend_from_slice(&[0u8; 16]);
    assert_eq!(records[0], expected);
}

#[test]
fn spectrum_of_a_tone_at_a_bin() {
    // A sinusoid at an exact bin frequency: with a Hann window the peak is
    // 0 dB and the two bins beside it are 6.02 dB lower.
    let n = 64;
    let bin = 5;
    let input: Vec<Complex<f32>> = (0..n)
        .map(|t| {
            let phase = 2.0 * std::f64::consts::PI * (bin * t) as f64 / n as f64;
            Complex { re: phase.cos() as f32, im: phase.sin() as f32 }
        })
        .collect();
    let records = spectrum_records(n, 2, SpectrumFormat::U8, &[input.clone(), input.clone()]);
    assert_eq!(records.len(), 1);
    let payload = &records[0][24..];
    assert_eq!(payload.len(), n);
    let peak = payload.iter().enumerate().max_by_key(|(_, v)| **v).unwrap().0;
    assert_eq!(peak, bin);
    assert!((payload[bin] as i32 - 250).abs() <= 1);
    assert!((payload[bin - 1] as i32 - 238).abs() <= 1);
    assert!((payload[bin + 1] as i32 - 238).abs() <= 1);
    for (k, v) in payload.iter().enumerate() {
        if k + 1 < bin || k > bin + 1 {
            assert_eq!(*v, 0);
        }
    }

    let records = spectrum_records(n, 1, SpectrumFormat::U16, &[input]);
    let payload = &records[0][24..];
    assert_eq!(payload.len(), 2 * n);
    let level = |k: usize| u16::from_be_bytes([payload[2 * k], payload[2 * k + 1]]) as i32;
    assert!((level(bin) - 4000).abs() <= 1);
    assert!((level(bin + 1) - 3880).abs() <= 1);
    assert!((0..n).all(|k| level(k) <= 4095));
}

#[test]
fn spectrum_records_are_numbered_in_order() {
    let input = vec![Complex { re: 0.5f32, im: -0.5 }; 8];
    let inputs: Vec<Vec<Complex<f32>>> = (0..6).map(|_| input.clone()).collect();
    let records = spectrum_records(8, 2, SpectrumFormat::U8, &inputs);
    assert_eq!(records.len(), 3);
    for (n, record) in records.iter().enumerate() {
        assert_eq!(record.len(), 24 + 8);
        assert_eq!(u64::from_le_bytes(record[0..8].try_into().unwrap()), n as u64);
        assert_eq!(&record[8..24], &header(0)[8..24]);
    }
}
