use fdn_reverb::wav::{dump_wav, wav_header_bytes};

const HEADER_STEREO_44100: [u8; 44] = [
    0x52, 0x49, 0x46, 0x46, 0x00, 0x00, 0x00, 0x00, 0x57, 0x41, 0x56, 0x45, 0x66, 0x6d, 0x74, 0x20,
    0x10, 0x00, 0x00, 0x00, 0x01, 0x00, 0x02, 0x00, 0x44, 0xAC, 0x00, 0x00, 0x00, 0x00, 0x00, 0x00,
    0x04, 0x00, 0x10, 0x00, 0x64, 0x61, 0x74, 0x61, 0xFE, 0xFF, 0xFF, 0x7F,
];

#[test]
fn header_for_stereo_at_44100() {
    assert_eq!(wav_header_bytes(2, 44100), HEADER_STEREO_44100.to_vec());
}

#[test]
fn header_fields_are_little_endian() {
    let header = wav_header_bytes(0x0102, 0x0A0B0C0D);
    assert_eq!(header.len(), 44);
    assert_eq!(&header[22..24], &[0x02, 0x01]);
    assert_eq!(&header[24..28], &[0x0D, 0x0C, 0x0B, 0x0A]);
    assert_eq!(&header[28..32], &[0, 0, 0, 0]);
    assert_eq!(&header[32..34], &[0x04, 0x02]);
}

#[test]
fn header_keeps_the_lower_bits_of_the_channel_count() {
    let header = wav_header_bytes(0x0001_0003, 48000);
    assert_eq!(&header[22..24], &[0x03, 0x00]);
    assert_eq!(&header[32..34], &[0x06, 0x00]);
    let header = wav_header_bytes(u32::MAX, u32::MAX);
    assert_eq!(&header[22..24], &[0xFF, 0xFF]);
    assert_eq!(&header[24..28], &[0xFF, 0xFF, 0xFF, 0xFF]);
    assert_eq!(&header[32..34], &[0xFE, 0xFF]);
    let header = wav_header_bytes(0x8000, 1);
    assert_eq!(&header[22..24], &[0x00, 0x80]);
    assert_eq!(&header[24..28], &[0x01, 0x00, 0x00, 0x00]);
    assert_eq!(&header[32..34], &[0x00, 0x00]);
}

#[test]
fn samples_follow_the_header() {
    let bytes = dump_wav(&[0, 1, -1, 256, -256, i16::MAX, i16::MIN, 0x1234], 2, 44100);
    assert_eq!(&bytes[..44], &HEADER_STEREO_44100);
    assert_eq!(
        &bytes[44..],
        &[
            0x00, 0x00, 0x01, 0x00, 0xFF, 0xFF, 0x00, 0x01, 0x00, 0xFF, 0xFF, 0x7F, 0x00, 0x80,
            0x34, 0x12
        ]
    );
}

#[test]
fn no_samples_give_the_header_alone() {
    assert_eq!(dump_wav(&[], 2, 44100), HEADER_STEREO_44100.to_vec());
}
