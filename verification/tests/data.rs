use spektri::data::{
    serialize_metadata, serialize_signal_topic, serialize_spectrum_topic, DataFormat, FftInfo,
    MessageType, Metadata, SignalInfo, SpectrumInfo, Timestamp, METADATA_LEN, PROTOCOL_VERSION,
    TOPIC_LEN,
};
use spektri::wire::ByteError;

fn all_formats() -> Vec<DataFormat> {
    vec![
        DataFormat::S8,
        DataFormat::S16le,
        DataFormat::S16be,
        DataFormat::F32le,
        DataFormat::F32be,
        DataFormat::U8,
        DataFormat::Cs8,
        DataFormat::Cs16le,
        DataFormat::Cs16be,
        DataFormat::Cf32le,
        DataFormat::Cf32be,
        DataFormat::Cu8,
    ]
}

#[test]
fn metadata_header_layout() {
    let metadata = Metadata {
        seq: 7,
        systemtime: Timestamp::SinceEpoch { secs: 0x0102030405060708, nanosecs: 0x0a0b0c0d },
    };
    let mut buf = vec![0xeeu8; 30];
    let mut offset = 3;
    serialize_metadata(&mut buf, &mut offset, &metadata, 0x1122334455667788).unwrap();
    assert_eq!(offset, 3 + METADATA_LEN);
    let mut expected = vec![0xeeu8; 3];
    expected.extend_from_slice(&[0x88, 0x77, 0x66, 0x55, 0x44, 0x33, 0x22, 0x11]);
    expected.extend_from_slice(&[0x08, 0x07, 0x06, 0x05, 0x04, 0x03, 0x02, 0x01]);
    expected.extend_from_slice(&[0x0d, 0x0c, 0x0b, 0x0a]);
    expected.extend_from_slice(&[0, 0, 0, 0]);
    expected.extend_from_slice(&[0xee, 0xee, 0xee]);
    assert_eq!(buf, expected);
}

#[test]
fn metadata_uses_the_given_sequence_number() {
    let metadata = Metadata { seq: 1, systemtime: Timestamp::SinceEpoch { secs: 2, nanosecs: 3 } };
    let mut buf = [0u8; 24];
    let mut offset = 0;
    serialize_metadata(&mut buf, &mut offset, &metadata, 9).unwrap();
    assert_eq!(u64::from_le_bytes(buf[0..8].try_into().unwrap()), 9);
    assert_eq!(u64::from_le_bytes(buf[8..16].try_into().unwrap()), 2);
    assert_eq!(u32::from_le_bytes(buf[16..20].try_into().unwrap()), 3);
    assert_eq!(u32::from_le_bytes(buf[20..24].try_into().unwrap()), 0);
}

#[test]
fn metadata_before_epoch_is_written_as_zeros() {
    let metadata = Metadata { seq: 5, systemtime: Timestamp::BeforeEpoch };
    let mut buf = [0xffu8; 24];
    let mut offset = 0;
    serialize_metadata(&mut buf, &mut offset, &metadata, 5).unwrap();
    assert_eq!(offset, 24);
    assert_eq!(&buf[0..8], &[5, 0, 0, 0, 0, 0, 0, 0]);
    assert_eq!(&buf[8..24], &[0u8; 16]);
}

#[test]
fn metadata_in_a_short_buffer() {
    let metadata = Metadata { seq: 5, systemtime: Timestamp::SinceEpoch { secs: 1, nanosecs: 2 } };

    // Room for the first two fields and not for the third.
    let mut buf = [0xffu8; 19];
    let mut offset = 0;
    assert_eq!(serialize_metadata(&mut buf, &mut offset, &metadata, 5), Err(ByteError::Incomplete));
    assert_eq!(offset, 16);
    assert_eq!(&buf[0..8], &[5, 0, 0, 0, 0, 0, 0, 0]);
    assert_eq!(&buf[8..16], &[1, 0, 0, 0, 0, 0, 0, 0]);
    assert_eq!(&buf[16..19], &[0xff, 0xff, 0xff]);

    // Room for three fields and not for the reserved one.
    let mut buf = [0xffu8; 23];
    let mut offset = 0;
    assert_eq!(serialize_metadata(&mut buf, &mut offset, &metadata, 5), Err(ByteError::Incomplete));
    assert_eq!(offset, 20);
    assert_eq!(&buf[16..20], &[2, 0, 0, 0]);
    assert_eq!(&buf[20..23], &[0xff, 0xff, 0xff]);

    // No room at all.
    let mut buf = [0xffu8; 4];
    let mut offset = 4;
    assert_eq!(serialize_metadata(&mut buf, &mut offset, &metadata, 5), Err(ByteError::Incomplete));
    assert_eq!(offset, 4);
    assert_eq!(buf, [0xffu8; 4]);

    // An offset behind the end.
    let mut offset = 5;
    assert_eq!(serialize_metadata(&mut buf, &mut offset, &metadata, 5), Err(ByteError::BadOffset(5)));
    assert_eq!(offset, 5);
    assert_eq!(buf, [0xffu8; 4]);
}

#[test]
fn signal_topic_layout() {
    let info = SignalInfo { fs: 500000.0f64.to_bits(), fc: 50.25e6f64.to_bits() };
    let topic = serialize_signal_topic(&info);
    assert_eq!(topic.len(), TOPIC_LEN);
    assert_eq!(topic[0], 2);
    assert_eq!(topic[0], PROTOCOL_VERSION);
    assert_eq!(topic[1], 0x40);
    assert_eq!(topic[2], 0x5C);
    assert_eq!(&topic[3..8], &[0u8; 5]);
    assert_eq!(f64::from_le_bytes(topic[8..16].try_into().unwrap()), 500000.0);
    assert_eq!(f64::from_le_bytes(topic[16..24].try_into().unwrap()), 50.25e6);
}

#[test]
fn spectrum_topic_layout() {
    let info = SpectrumInfo { fd: 7812.5f64.to_bits(), f0: (-1.5f64).to_bits() };
    let topic = serialize_spectrum_topic(&info);
    assert_eq!(topic[0], 2);
    assert_eq!(topic[1], 0x60);
    assert_eq!(topic[2], 0x24);
    assert_eq!(&topic[3..8], &[0u8; 5]);
    assert_eq!(&topic[8..16], &7812.5f64.to_le_bytes());
    assert_eq!(&topic[16..24], &(-1.5f64).to_le_bytes());
}

#[test]
fn topics_are_functions_of_their_input() {
    let a = SignalInfo { fs: 1.0e6f64.to_bits(), fc: 2.0e6f64.to_bits() };
    let b = SignalInfo { fs: 1.0e6f64.to_bits(), fc: 2.0e6f64.to_bits() };
    assert_eq!(serialize_signal_topic(&a), serialize_signal_topic(&b));
    assert_eq!(serialize_signal_topic(&a), serialize_signal_topic(&a));
    let c = SpectrumInfo { fd: 10.0f64.to_bits(), f0: 0.0f64.to_bits() };
    let d = SpectrumInfo { fd: 10.0f64.to_bits(), f0: 0.0f64.to_bits() };
    assert_eq!(serialize_spectrum_topic(&c), serialize_spectrum_topic(&d));
    let e = SignalInfo { fs: 1.0e6f64.to_bits(), fc: 2.5e6f64.to_bits() };
    assert_ne!(serialize_signal_topic(&a), serialize_signal_topic(&e));
}

#[test]
fn message_type_codes() {
    assert_eq!(MessageType::Status.code(), 0x20);
    assert_eq!(MessageType::Waveform.code(), 0x40);
    assert_eq!(MessageType::Spectrum.code(), 0x60);
}

#[test]
fn data_format_codes() {
    let codes: Vec<u8> = all_formats().into_iter().map(|f| f.code()).collect();
    assert_eq!(
        codes,
        vec![0x04, 0x08, 0x09, 0x1C, 0x1D, 0x24, 0x44, 0x48, 0x49, 0x5C, 0x5D, 0x64]
    );
}

#[test]
fn data_format_code_fields() {
    // bit 7..6: real or complex; bit 5..4: kind; bit 3..1: size; bit 0: endian
    let code = DataFormat::Cs16be.code();
    assert_eq!(code >> 6, 1);
    assert_eq!((code >> 4) & 3, 0);
    assert_eq!((code >> 1) & 7, 4);
    assert_eq!(code & 1, 1);
    let code = DataFormat::F32le.code();
    assert_eq!(code >> 6, 0);
    assert_eq!((code >> 4) & 3, 1);
    assert_eq!((code >> 1) & 7, 6);
    assert_eq!(code & 1, 0);
    let code = DataFormat::Cu8.code();
    assert_eq!(code >> 6, 1);
    assert_eq!((code >> 4) & 3, 2);
    assert_eq!((code >> 1) & 7, 2);
    assert_eq!(code & 1, 0);
}

#[test]
fn result_bins_of_an_fft() {
    assert_eq!(FftInfo { size: 16, complex: true }.result_bins(), 16);
    assert_eq!(FftInfo { size: 16, complex: false }.result_bins(), 9);
    assert_eq!(FftInfo { size: 15, complex: false }.result_bins(), 8);
    assert_eq!(FftInfo { size: 0, complex: false }.result_bins(), 1);
    assert_eq!(FftInfo { size: usize::MAX, complex: false }.result_bins(), usize::MAX / 2 + 1);
}
