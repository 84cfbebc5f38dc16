//! Data types shared by the parts of the pipeline, and their encoding for
//! files and messages.
//!
//! Frequencies are 64-bit floats on the wire.  This crate never computes with
//! them: it carries each one as its IEEE-754 bit pattern, a `u64`.

use crate::wire::{
    le_bytes,
    le_value,
    lemma_le_bytes_len,
    lemma_le_round_trip,
    radix,
    refusal,
    splice,
    write_u32_le,
    write_u64_le,
    ByteError,
};
use vstd::prelude::*;

verus! {

/// Version of the topic layout, the first byte of every topic.
pub const PROTOCOL_VERSION: u8 = 2;

/// Number of bytes of a serialized record header.
pub const METADATA_LEN: usize = 24;

/// Number of bytes of a topic.
pub const TOPIC_LEN: usize = 24;

/// Wall-clock time at which a processing block was received.
#[derive(Clone, Copy, Debug, PartialEq, Eq, Structural)]
pub enum Timestamp {
    /// Whole seconds since the Unix epoch, and the nanoseconds beyond them.
    SinceEpoch { secs: u64, nanosecs: u32 },
    /// The clock stood before the epoch.
    BeforeEpoch,
}

impl Timestamp {
    /// The seconds field of a record header: zero for a clock before the epoch.
    pub open spec fn wire_secs(self) -> u64 {
        match self {
            Timestamp::SinceEpoch { secs, .. } => secs,
            Timestamp::BeforeEpoch => 0,
        }
    }

    /// The nanoseconds field of a record header: zero for a clock before the
    /// epoch.
    pub open spec fn wire_nanosecs(self) -> u32 {
        match self {
            Timestamp::SinceEpoch { nanosecs, .. } => nanosecs,
            Timestamp::BeforeEpoch => 0,
        }
    }
}

/// Metadata for measurement records or buffers of samples.
#[derive(Clone, Copy, Debug, PartialEq, Eq, Structural)]
pub struct Metadata {
    /// Sequence number of the processing block.
    pub seq: u64,
    /// System time when the processing block was received.
    pub systemtime: Timestamp,
}

/// The header of a record: sequence number, seconds, nanoseconds and a
/// reserved zero, all little-endian.
pub open spec fn metadata_header(seq: u64, time: Timestamp) -> Seq<u8> {
    le_bytes(seq as nat, 8) + le_bytes(time.wire_secs() as nat, 8) + le_bytes(
        time.wire_nanosecs() as nat,
        4,
    ) + le_bytes(0, 4)
}

/// How many bytes of a header reach a buffer with `room` bytes left: the
/// fields are written one by one, and the first that does not fit stops the
/// writing.
pub open spec fn header_bytes_placed(room: int) -> int {
    if room >= 24 {
        24
    } else if room >= 20 {
        20
    } else if room >= 16 {
        16
    } else if room >= 8 {
        8
    } else {
        0
    }
}

/// What the writing of a header makes of a buffer: the fields that fit are in
/// their places, and nothing else has changed.
pub open spec fn with_header(before: Seq<u8>, offset: usize, header: Seq<u8>) -> Seq<u8> {
    if offset <= before.len() {
        splice(
            before,
            offset as int,
            header.subrange(0, header_bytes_placed(before.len() - offset)),
        )
    } else {
        before
    }
}

/// A header has 24 bytes.
pub proof fn lemma_metadata_header_len(seq: u64, time: Timestamp)
    ensures
        metadata_header(seq, time).len() == METADATA_LEN,
{
    lemma_le_bytes_len(seq as nat, 8);
    lemma_le_bytes_len(time.wire_secs() as nat, 8);
    lemma_le_bytes_len(time.wire_nanosecs() as nat, 4);
    lemma_le_bytes_len(0, 4);
}

/// The sequence number that a record carries in its header.
pub open spec fn record_seq(record: Seq<u8>) -> nat {
    le_value(record.subrange(0, 8))
}

/// The seconds that a record carries in its header.
pub open spec fn record_secs(record: Seq<u8>) -> nat {
    le_value(record.subrange(8, 16))
}

/// The nanoseconds that a record carries in its header.
pub open spec fn record_nanosecs(record: Seq<u8>) -> nat {
    le_value(record.subrange(16, 20))
}

/// Record framing: a record is 24 bytes of header and then its body, and the
/// fields of the header read back as they were written.  A clock before the
/// epoch reads back as zero.
pub proof fn lemma_record_framing(seq: u64, time: Timestamp, body: Seq<u8>)
    ensures
        (metadata_header(seq, time) + body).len() == METADATA_LEN + body.len(),
        (metadata_header(seq, time) + body).subrange(0, METADATA_LEN as int) == metadata_header(
            seq,
            time,
        ),
        (metadata_header(seq, time) + body).subrange(
            METADATA_LEN as int,
            METADATA_LEN + body.len(),
        ) == body,
        record_seq(metadata_header(seq, time) + body) == seq,
        record_secs(metadata_header(seq, time) + body) == time.wire_secs(),
        record_nanosecs(metadata_header(seq, time) + body) == time.wire_nanosecs(),
        le_value((metadata_header(seq, time) + body).subrange(20, 24)) == 0,
{
    let record = metadata_header(seq, time) + body;
    lemma_le_bytes_len(seq as nat, 8);
    lemma_le_bytes_len(time.wire_secs() as nat, 8);
    lemma_le_bytes_len(time.wire_nanosecs() as nat, 4);
    lemma_le_bytes_len(0, 4);
    assert(record.subrange(0, METADATA_LEN as int) =~= metadata_header(seq, time));
    assert(record.subrange(METADATA_LEN as int, METADATA_LEN + body.len()) =~= body);
    assert(record.subrange(0, 8) =~= le_bytes(seq as nat, 8));
    assert(record.subrange(8, 16) =~= le_bytes(time.wire_secs() as nat, 8));
    assert(record.subrange(16, 20) =~= le_bytes(time.wire_nanosecs() as nat, 4));
    assert(record.subrange(20, 24) =~= le_bytes(0, 4));
    lemma_le_round_trip(seq as nat, 8);
    lemma_le_round_trip(time.wire_secs() as nat, 8);
    lemma_le_round_trip(time.wire_nanosecs() as nat, 4);
    lemma_le_round_trip(0, 4);
    assert(radix(4) == 0x1_0000_0000 && radix(8) == 0x1_0000_0000_0000_0000) by {
        reveal_with_fuel(radix, 9);
    }
}

/// Serialize metadata for a single measurement record.
/// The serialized metadata is placed in the beginning of each record
/// of signal or spectrum data.
///
/// The sequence number is a parameter of its own because a record of spectrum
/// data does not carry the sequence number of a processing block.
///
/// The header goes to `buf` at `offset`, which moves behind it.  Where the
/// buffer is too short, the fields that fit before the first that does not
/// are written, and the offset stands behind them.
pub fn serialize_metadata(
    buf: &mut [u8],
    offset: &mut usize,
    metadata: &Metadata,
    seq: u64,
) -> (r: Result<(), ByteError>)
    ensures
        r == (if *old(offset) + METADATA_LEN <= old(buf)@.len() {
            Ok::<(), ByteError>(())
        } else {
            Err::<(), ByteError>(refusal(old(buf)@.len(), *old(offset)))
        }),
        final(buf)@ == with_header(
            old(buf)@,
            *old(offset),
            metadata_header(seq, metadata.systemtime),
        ),
        *final(offset) == *old(offset) + header_bytes_placed(old(buf)@.len() - *old(offset)),
{
    let (secs, nanosecs) = match metadata.systemtime {
        Timestamp::SinceEpoch { secs, nanosecs } => (secs, nanosecs),
        // A clock before the epoch is written as zeros.
        Timestamp::BeforeEpoch => (0, 0),
    };
    let ghost before = buf@;
    let ghost start = *offset as int;
    let ghost header = metadata_header(seq, metadata.systemtime);
    proof {
        lemma_le_bytes_len(seq as nat, 8);
        lemma_le_bytes_len(secs as nat, 8);
        lemma_le_bytes_len(nanosecs as nat, 4);
        lemma_le_bytes_len(0, 4);
    }

    let r = write_u64_le(buf, offset, seq);
    if r.is_err() {
        assert(start <= before.len() ==> buf@ =~= splice(before, start, header.subrange(0, 0)));
        return r;
    }
    assert(buf@ =~= splice(before, start, header.subrange(0, 8)));
    let r = write_u64_le(buf, offset, secs);
    if r.is_err() {
        return r;
    }
    assert(buf@ =~= splice(before, start, header.subrange(0, 16)));
    let r = write_u32_le(buf, offset, nanosecs);
    if r.is_err() {
        return r;
    }
    assert(buf@ =~= splice(before, start, header.subrange(0, 20)));
    // Reserved
    let r = write_u32_le(buf, offset, 0u32);
    if r.is_err() {
        return r;
    }
    assert(buf@ =~= splice(before, start, header.subrange(0, 24)));
    Ok(())
}

/// Information about FFT results.
#[derive(Clone, Copy, Debug, PartialEq, Eq, Structural)]
pub struct FftInfo {
    /// FFT size.
    pub size: usize,
    /// Is the input signal real (false) or complex (true).
    pub complex: bool,
}

impl FftInfo {
    /// Number of bins that one FFT result stores: all of them for a complex
    /// input, the non-negative frequencies for a real one.
    pub open spec fn spec_result_bins(self) -> int {
        if self.complex {
            self.size as int
        } else {
            self.size / 2 + 1
        }
    }

    /// Number of bins that one FFT result stores.
    pub fn result_bins(&self) -> (m: usize)
        ensures
            m == self.spec_result_bins(),
    {
        if self.complex {
            self.size
        } else {
            self.size / 2 + 1
        }
    }
}

/// Information about signal data.
#[derive(Clone, Copy, Debug, PartialEq, Eq, Structural)]
pub struct SignalInfo {
    /// Sample rate, the bit pattern of a 64-bit float.
    pub fs: u64,
    /// Center frequency, the bit pattern of a 64-bit float.
    pub fc: u64,
}

/// Information about spectrum data.
#[derive(Clone, Copy, Debug, PartialEq, Eq, Structural)]
pub struct SpectrumInfo {
    /// Spacing of bins in frequency, the bit pattern of a 64-bit float.
    pub fd: u64,
    /// Frequency of the first bin, the bit pattern of a 64-bit float.
    pub f0: u64,
}

/// Kind of message that a topic announces.
#[derive(Clone, Copy, Debug, PartialEq, Eq, Structural)]
pub enum MessageType {
    Status,
    Waveform,
    Spectrum,
}

impl MessageType {
    /// The second byte of a topic.
    pub open spec fn spec_code(self) -> u8 {
        match self {
            MessageType::Status => 0x20,
            MessageType::Waveform => 0x40,
            MessageType::Spectrum => 0x60,
        }
    }

    /// The second byte of a topic.
    pub fn code(self) -> (c: u8)
        ensures
            c == self.spec_code(),
    {
        match self {
            MessageType::Status => 0x20,
            MessageType::Waveform => 0x40,
            MessageType::Spectrum => 0x60,
        }
    }
}

/// How the numbers of a data format are written.
#[derive(Clone, Copy, Debug, PartialEq, Eq, Structural)]
pub enum NumberKind {
    /// Two's complement integer.
    Signed,
    /// IEEE-754 float.
    Float,
    /// Unsigned integer.
    Unsigned,
}

/// Format of the numbers in a stream of samples or of spectrum values.
#[derive(Clone, Copy, Debug, PartialEq, Eq, Structural)]
pub enum DataFormat {
    /// Real signed 8-bit.
    S8,
    /// Real signed 16-bit, little endian.
    S16le,
    /// Real signed 16-bit, big endian.
    S16be,
    /// Real float 32-bit, little endian.
    F32le,
    /// Real float 32-bit, big endian.
    F32be,
    /// Real unsigned 8-bit.
    U8,
    /// Complex signed 8-bit.
    Cs8,
    /// Complex signed 16-bit, little endian.
    Cs16le,
    /// Complex signed 16-bit, big endian.
    Cs16be,
    /// Complex float 32-bit, little endian.
    Cf32le,
    /// Complex float 32-bit, big endian.
    Cf32be,
    /// Complex unsigned 8-bit.
    Cu8,
}

impl DataFormat {
    /// Whether a sample is a pair of numbers, real part first.
    pub open spec fn is_complex(self) -> bool {
        match self {
            DataFormat::S8 | DataFormat::S16le | DataFormat::S16be | DataFormat::F32le
            | DataFormat::F32be | DataFormat::U8 => false,
            DataFormat::Cs8 | DataFormat::Cs16le | DataFormat::Cs16be | DataFormat::Cf32le
            | DataFormat::Cf32be | DataFormat::Cu8 => true,
        }
    }

    /// How each number is written.
    pub open spec fn kind(self) -> NumberKind {
        match self {
            DataFormat::S8 | DataFormat::S16le | DataFormat::S16be | DataFormat::Cs8
            | DataFormat::Cs16le | DataFormat::Cs16be => NumberKind::Signed,
            DataFormat::F32le | DataFormat::F32be | DataFormat::Cf32le | DataFormat::Cf32be =>
                NumberKind::Float,
            DataFormat::U8 | DataFormat::Cu8 => NumberKind::Unsigned,
        }
    }

    /// Number of bytes of each number.
    pub open spec fn width(self) -> nat {
        match self {
            DataFormat::S8 | DataFormat::U8 | DataFormat::Cs8 | DataFormat::Cu8 => 1,
            DataFormat::S16le | DataFormat::S16be | DataFormat::Cs16le | DataFormat::Cs16be => 2,
            DataFormat::F32le | DataFormat::F32be | DataFormat::Cf32le | DataFormat::Cf32be => 4,
        }
    }

    /// Whether the most significant byte of a number comes first.
    pub open spec fn is_big_endian(self) -> bool {
        match self {
            DataFormat::S16be | DataFormat::F32be | DataFormat::Cs16be | DataFormat::Cf32be => true,
            _ => false,
        }
    }

    /// The third byte of a topic.
    pub open spec fn spec_code(self) -> u8 {
        match self {
            DataFormat::S8 => 0x04,
            DataFormat::S16le => 0x08,
            DataFormat::S16be => 0x09,
            DataFormat::F32le => 0x1C,
            DataFormat::F32be => 0x1D,
            DataFormat::U8 => 0x24,
            DataFormat::Cs8 => 0x44,
            DataFormat::Cs16le => 0x48,
            DataFormat::Cs16be => 0x49,
            DataFormat::Cf32le => 0x5C,
            DataFormat::Cf32be => 0x5D,
            DataFormat::Cu8 => 0x64,
        }
    }

    /// The third byte of a topic.
    pub fn code(self) -> (c: u8)
        ensures
            c == self.spec_code(),
    {
        match self {
            DataFormat::S8 => 0x04,
            DataFormat::S16le => 0x08,
            DataFormat::S16be => 0x09,
            DataFormat::F32le => 0x1C,
            DataFormat::F32be => 0x1D,
            DataFormat::U8 => 0x24,
            DataFormat::Cs8 => 0x44,
            DataFormat::Cs16le => 0x48,
            DataFormat::Cs16be => 0x49,
            DataFormat::Cf32le => 0x5C,
            DataFormat::Cf32be => 0x5D,
            DataFormat::Cu8 => 0x64,
        }
    }
}

/// The two bits of a format code that say how a number is written.
pub open spec fn kind_field(kind: NumberKind) -> int {
    match kind {
        NumberKind::Signed => 0,
        NumberKind::Float => 1,
        NumberKind::Unsigned => 2,
    }
}

/// The three bits of a format code that say how many bits a number has.
/// Widths of 12, 24 and 64 bits have the codes 3, 5 and 7.
pub open spec fn size_field(width: nat) -> int {
    if width == 1 {
        2
    } else if width == 2 {
        4
    } else {
        6
    }
}

/// A format code is made of four fields, from the top bit down: two bits for
/// real or complex, two for the kind of number, three for its size, one for
/// the byte order.
pub proof fn lemma_format_code_fields(fmt: DataFormat)
    ensures
        fmt.spec_code() == 64 * (if fmt.is_complex() {
            1int
        } else {
            0int
        }) + 16 * kind_field(fmt.kind()) + 2 * size_field(fmt.width()) + (if fmt.is_big_endian() {
            1int
        } else {
            0int
        }),
{
}

/// The 24 bytes of a topic: protocol version, message type, data format, five
/// zero bytes, and two 64-bit floats, little-endian.
pub open spec fn topic(kind: MessageType, format: DataFormat, first: u64, second: u64) -> Seq<u8> {
    seq![PROTOCOL_VERSION, kind.spec_code(), format.spec_code(), 0u8, 0u8, 0u8, 0u8, 0u8]
        + le_bytes(first as nat, 8) + le_bytes(second as nat, 8)
}

/// The topic of a stream of signal data.
pub open spec fn signal_topic(info: SignalInfo) -> Seq<u8> {
    topic(MessageType::Waveform, DataFormat::Cf32le, info.fs, info.fc)
}

/// The topic of a stream of spectrum data.
pub open spec fn spectrum_topic(info: SpectrumInfo) -> Seq<u8> {
    topic(MessageType::Spectrum, DataFormat::U8, info.fd, info.f0)
}

/// The layout of a topic: 24 bytes, of which the first three say what is
/// described, the next five are zero, and the rest read back as the two
/// numbers.  So a topic is a function of what it describes, and different
/// kinds, formats or numbers give different topics.
pub proof fn lemma_topic_layout(kind: MessageType, format: DataFormat, first: u64, second: u64)
    ensures
        topic(kind, format, first, second).len() == TOPIC_LEN,
        topic(kind, format, first, second)[0] == PROTOCOL_VERSION,
        topic(kind, format, first, second)[1] == kind.spec_code(),
        topic(kind, format, first, second)[2] == format.spec_code(),
        forall|k: int| 3 <= k < 8 ==> topic(kind, format, first, second)[k] == 0,
        le_value(topic(kind, format, first, second).subrange(8, 16)) == first,
        le_value(topic(kind, format, first, second).subrange(16, 24)) == second,
{
    let t = topic(kind, format, first, second);
    lemma_le_bytes_len(first as nat, 8);
    lemma_le_bytes_len(second as nat, 8);
    assert(t.subrange(8, 16) =~= le_bytes(first as nat, 8));
    assert(t.subrange(16, 24) =~= le_bytes(second as nat, 8));
    lemma_le_round_trip(first as nat, 8);
    lemma_le_round_trip(second as nat, 8);
    assert(radix(8) == 0x1_0000_0000_0000_0000) by {
        reveal_with_fuel(radix, 9);
    }
}

/// Builds a topic from its parts.
fn serialize_topic(kind: MessageType, format: DataFormat, first: u64, second: u64) -> (buf: [
    u8;
    24
])
    ensures
        buf@ == topic(kind, format, first, second),
{
    let mut buf = [0u8; 24];

    buf[0] = PROTOCOL_VERSION;
    buf[1] = kind.code();
    buf[2] = format.code();

    proof {
        lemma_le_bytes_len(first as nat, 8);
        lemma_le_bytes_len(second as nat, 8);
    }
    let mut offset: usize = 8;
    // These always fit into the buffer.
    let first_written = write_u64_le(&mut buf, &mut offset, first);
    let second_written = write_u64_le(&mut buf, &mut offset, second);
    assert(first_written is Ok && second_written is Ok);
    assert(buf@ =~= topic(kind, format, first, second));
    buf
}

/// Serialize topic for signal data.
/// The topic encodes sample rate and center frequency of the signal.
pub fn serialize_signal_topic(info: &SignalInfo) -> (buf: [u8; 24])
    ensures
        buf@ == signal_topic(*info),
{
    serialize_topic(MessageType::Waveform, DataFormat::Cf32le, info.fs, info.fc)
}

/// Serialize topic for spectrum data.
/// The topic encodes the spacing of the bins and the frequency of the first.
pub fn serialize_spectrum_topic(info: &SpectrumInfo) -> (buf: [u8; 24])
    ensures
        buf@ == spectrum_topic(*info),
{
    serialize_topic(MessageType::Spectrum, DataFormat::U8, info.fd, info.f0)
}

} // verus!
