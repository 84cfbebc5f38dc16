//! Input formats and conversion functions
//!
//! A stream of samples arrives as raw bytes.  The functions here read the
//! numbers out of them, in the width and byte order of the format.  A number
//! of a float format is handed on as its bits, and an integer as it is: the
//! step from there to a float between -1 and 1 is the caller's.

use crate::data::NumberKind;
use crate::wire::{
    be_value,
    field,
    le_value,
    read_i16_be,
    read_i16_le,
    read_i8,
    read_u32_be,
    read_u32_le,
    read_u8,
    twos_complement,
};
use vstd::prelude::*;

pub use crate::data::DataFormat as InputFormat;

verus! {

/// One number of an input stream, as the bytes spell it.
#[derive(Clone, Copy, Debug, PartialEq, Eq, Structural)]
pub enum RawSample {
    /// A number of an unsigned 8-bit format.
    Unsigned8(u8),
    /// A number of a signed 8-bit format.
    Signed8(i8),
    /// A number of a signed 16-bit format.
    Signed16(i16),
    /// The bits of a number of a 32-bit float format.
    Float32(u32),
}

/// Number of bytes of one sample: one number for a real format, two for a
/// complex one.
pub open spec fn sample_bytes(fmt: InputFormat) -> nat {
    if fmt.is_complex() {
        2 * fmt.width()
    } else {
        fmt.width()
    }
}

/// The largest magnitude of an integer format: 127 for 8 bits, also where
/// they are unsigned, and 32767 for 16 bits.  A float format has 1.
pub open spec fn full_scale(fmt: InputFormat) -> int {
    match fmt.kind() {
        NumberKind::Float => 1,
        _ => if fmt.width() == 1 {
            i8::MAX as int
        } else {
            i16::MAX as int
        },
    }
}

/// The number that `bytes` spell in a format.
pub open spec fn number_of(fmt: InputFormat, bytes: Seq<u8>) -> RawSample {
    let value = if fmt.is_big_endian() {
        be_value(bytes)
    } else {
        le_value(bytes)
    };
    match fmt.kind() {
        NumberKind::Unsigned => RawSample::Unsigned8(value as u8),
        NumberKind::Signed => if fmt.width() == 1 {
            RawSample::Signed8(twos_complement(value, 1) as i8)
        } else {
            RawSample::Signed16(twos_complement(value, 2) as i16)
        },
        NumberKind::Float => RawSample::Float32(value as u32),
    }
}

/// The `n`-th number of a stream.
pub open spec fn number_at(src: Seq<u8>, fmt: InputFormat, n: int) -> RawSample {
    number_of(fmt, src.subrange(n * fmt.width(), (n + 1) * fmt.width()))
}

/// Number of bytes of one sample of a stream.
pub fn bytes_per_input_sample(fmt: InputFormat) -> (bytes: usize)
    ensures
        bytes == sample_bytes(fmt),
{
    match fmt {
        InputFormat::U8 => 1,
        InputFormat::S8 => 1,
        InputFormat::S16le => 2,
        InputFormat::S16be => 2,
        InputFormat::F32le => 4,
        InputFormat::F32be => 4,
        InputFormat::Cu8 => 2,
        InputFormat::Cs8 => 2,
        InputFormat::Cs16le => 4,
        InputFormat::Cs16be => 4,
        InputFormat::Cf32le => 8,
        InputFormat::Cf32be => 8,
    }
}

/// Whether the samples of a stream are complex.
pub fn is_input_format_complex(fmt: InputFormat) -> (complex: bool)
    ensures
        complex == fmt.is_complex(),
{
    match fmt {
        InputFormat::U8
        | InputFormat::S8
        | InputFormat::S16le
        | InputFormat::S16be
        | InputFormat::F32le
        | InputFormat::F32be => false,
        InputFormat::Cu8
        | InputFormat::Cs8
        | InputFormat::Cs16le
        | InputFormat::Cs16be
        | InputFormat::Cf32le
        | InputFormat::Cf32be => true,
    }
}

/// Scaling of each input format to get numbers between -1 and 1: the divisor
/// `d` of the scaling factor `1 / d`.
pub fn input_format_scaling(fmt: InputFormat) -> (divisor: u16)
    ensures
        divisor == full_scale(fmt),
{
    match fmt {
        InputFormat::U8 | InputFormat::S8 | InputFormat::Cu8 | InputFormat::Cs8 => 127,
        InputFormat::S16le | InputFormat::S16be | InputFormat::Cs16le | InputFormat::Cs16be => 32767,
        InputFormat::F32le | InputFormat::F32be | InputFormat::Cf32le | InputFormat::Cf32be => 1,
    }
}

/// A complex sample of an input stream: the real part comes first.
#[derive(Clone, Copy, Debug, PartialEq, Eq, Structural)]
pub struct RawComplex {
    pub re: RawSample,
    pub im: RawSample,
}

/// The `n`-th sample of a complex stream.
pub open spec fn complex_at(src: Seq<u8>, fmt: InputFormat, n: int) -> RawComplex {
    RawComplex { re: number_at(src, fmt, 2 * n), im: number_at(src, fmt, 2 * n + 1) }
}

/// Reads one number of a format at an offset, which moves behind it.
fn read_number(src: &[u8], offset: &mut usize, fmt: InputFormat) -> (number: RawSample)
    requires
        *old(offset) + fmt.width() <= src@.len(),
    ensures
        *final(offset) == *old(offset) + fmt.width(),
        number == number_of(fmt, field(src@, *old(offset), fmt.width())),
{
    let ghost bytes = field(src@, *offset, fmt.width());
    proof {
        reveal_with_fuel(le_value, 2);
        reveal_with_fuel(crate::wire::radix, 3);
        assert(bytes.len() == fmt.width());
        assert(bytes[0] == src@[*offset as int]);
    }
    match fmt {
        InputFormat::U8 | InputFormat::Cu8 => match read_u8(src, offset) {
            Ok(v) => RawSample::Unsigned8(v),
            Err(_) => vstd::pervasive::unreached(),
        },
        InputFormat::S8 | InputFormat::Cs8 => match read_i8(src, offset) {
            Ok(v) => RawSample::Signed8(v),
            Err(_) => vstd::pervasive::unreached(),
        },
        InputFormat::S16le | InputFormat::Cs16le => match read_i16_le(src, offset) {
            Ok(v) => RawSample::Signed16(v),
            Err(_) => vstd::pervasive::unreached(),
        },
        InputFormat::S16be | InputFormat::Cs16be => match read_i16_be(src, offset) {
            Ok(v) => RawSample::Signed16(v),
            Err(_) => vstd::pervasive::unreached(),
        },
        InputFormat::F32le | InputFormat::Cf32le => match read_u32_le(src, offset) {
            Ok(v) => RawSample::Float32(v),
            Err(_) => vstd::pervasive::unreached(),
        },
        InputFormat::F32be | InputFormat::Cf32be => match read_u32_be(src, offset) {
            Ok(v) => RawSample::Float32(v),
            Err(_) => vstd::pervasive::unreached(),
        },
    }
}

/// Where the `n`-th of `count` numbers lies in a stream that holds them all.
proof fn lemma_number_lies_inside(n: int, count: int, width: int, len: int)
    requires
        0 <= n < count,
        0 < width,
        count * width <= len,
    ensures
        0 <= n * width,
        (n + 1) * width == n * width + width,
        (n + 1) * width <= len,
{
    assert(0 <= n * width) by (nonlinear_arith)
        requires
            0 <= n,
            0 < width,
    ;
    assert((n + 1) * width == n * width + width) by (nonlinear_arith);
    assert((n + 1) * width <= count * width) by (nonlinear_arith)
        requires
            n + 1 <= count,
            0 < width,
    ;
}

/// Reads real samples from raw bytes: as many as `dst` holds, from the start
/// of `src`, one number each.
pub fn convert_to_f32(src: &[u8], dst: &mut [RawSample], fmt: InputFormat)
    requires
        !fmt.is_complex(),
        old(dst)@.len() * sample_bytes(fmt) <= src@.len(),
    ensures
        final(dst)@.len() == old(dst)@.len(),
        forall|n: int| 0 <= n < final(dst)@.len() ==> final(dst)@[n] == number_at(src@, fmt, n),
{
    let count = dst.len();
    let mut offset: usize = 0;
    let mut n: usize = 0;
    while n < count
        invariant
            n <= count,
            count == dst@.len(),
            count * fmt.width() <= src@.len(),
            offset == n * fmt.width(),
            forall|j: int| 0 <= j < n ==> dst@[j] == number_at(src@, fmt, j),
        decreases count - n,
    {
        proof {
            lemma_number_lies_inside(n as int, count as int, fmt.width() as int, src@.len() as int);
        }
        let number = read_number(src, &mut offset, fmt);
        dst[n] = number;
        n += 1;
    }
}

/// Reads complex samples from raw bytes: as many as `dst` holds, from the
/// start of `src`, the real part and then the imaginary part of each.
pub fn convert_to_cf32(src: &[u8], dst: &mut [RawComplex], fmt: InputFormat)
    requires
        fmt.is_complex(),
        old(dst)@.len() * sample_bytes(fmt) <= src@.len(),
    ensures
        final(dst)@.len() == old(dst)@.len(),
        forall|n: int| 0 <= n < final(dst)@.len() ==> final(dst)@[n] == complex_at(src@, fmt, n),
{
    let count = dst.len();
    let mut offset: usize = 0;
    let mut n: usize = 0;
    assert(2 * count * fmt.width() == count * (2 * fmt.width())) by (nonlinear_arith);
    while n < count
        invariant
            n <= count,
            count == dst@.len(),
            2 * count * fmt.width() <= src@.len(),
            offset == 2 * n * fmt.width(),
            forall|j: int| 0 <= j < n ==> dst@[j] == complex_at(src@, fmt, j),
        decreases count - n,
    {
        proof {
            let w = fmt.width() as int;
            lemma_number_lies_inside(2 * n, 2 * count, w, src@.len() as int);
            lemma_number_lies_inside(2 * n + 1, 2 * count, w, src@.len() as int);
        }
        let re = read_number(src, &mut offset, fmt);
        let im = read_number(src, &mut offset, fmt);
        dst[n] = RawComplex { re, im };
        n += 1;
    }
}

} // verus!
