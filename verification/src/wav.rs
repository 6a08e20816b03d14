//! The bytes of a WAV stream of 16-bit samples: a fixed header of 44 bytes
//! that carries the channel count and the sample rate, then the samples in
//! little-endian order.
use byteorder::{ByteOrder, LittleEndian};
use vstd::prelude::*;

verus! {

/// The two bytes of `n`, least significant first.
pub open spec fn le_bytes_u16(n: u16) -> Seq<u8> {
    seq![(n % 256) as u8, (n / 256) as u8]
}

/// The four bytes of `n`, least significant first.
pub open spec fn le_bytes_u32(n: u32) -> Seq<u8> {
    seq![
        (n % 256) as u8,
        (n / 256 % 256) as u8,
        (n / 65536 % 256) as u8,
        (n / 16777216) as u8,
    ]
}

/// The two bytes of `n` in two's complement, least significant first.
pub open spec fn le_bytes_i16(n: i16) -> Seq<u8> {
    le_bytes_u16(
        if n >= 0 {
            n as u16
        } else {
            (n + 65536) as u16
        },
    )
}

/// The header: the `RIFF` and `WAVE` marks, a format chunk for PCM samples of
/// 16 bits with the channel count, the sample rate and the block alignment
/// (two bytes for each channel), and the mark of the data chunk. The sizes are
/// those of a stream of unknown length, and the byte rate is left at zero.
/// The channel count and the block alignment keep their lower 16 bits.
pub open spec fn wav_header(channel_count: u32, sample_rate: u32) -> Seq<u8> {
    seq![
        0x52u8, 0x49, 0x46, 0x46, 0x00, 0x00, 0x00, 0x00, 0x57, 0x41, 0x56, 0x45,
        0x66, 0x6d, 0x74, 0x20, 0x10, 0x00, 0x00, 0x00, 0x01, 0x00,
    ] + le_bytes_u16((channel_count % 65536) as u16) + le_bytes_u32(sample_rate)
        + seq![0x00u8, 0x00, 0x00, 0x00] + le_bytes_u16((channel_count * 2 % 65536) as u16)
        + seq![0x10u8, 0x00, 0x64, 0x61, 0x74, 0x61, 0xFE, 0xFF, 0xFF, 0x7F]
}

/// The bytes of `samples`, two for each, in order.
pub open spec fn sample_bytes(samples: Seq<i16>) -> Seq<u8> {
    Seq::new(2 * samples.len(), |i: int| le_bytes_i16(samples[i / 2])[i % 2])
}

/// The whole stream: the header, then the samples.
pub open spec fn wav_bytes(samples: Seq<i16>, channel_count: u32, sample_rate: u32) -> Seq<u8> {
    wav_header(channel_count, sample_rate) + sample_bytes(samples)
}

/// byteorder's `LittleEndian::write_u16` on a buffer of two bytes: they hold
/// `n`, least significant byte first.
#[verifier::external_body]
fn u16_le(n: u16) -> (bytes: [u8; 2])
    ensures
        bytes@ == le_bytes_u16(n),
{
    let mut bytes: [u8; 2] = [0; 2];
    LittleEndian::write_u16(&mut bytes, n);
    bytes
}

/// byteorder's `LittleEndian::write_u32` on a buffer of four bytes: they hold
/// `n`, least significant byte first.
#[verifier::external_body]
fn u32_le(n: u32) -> (bytes: [u8; 4])
    ensures
        bytes@ == le_bytes_u32(n),
{
    let mut bytes: [u8; 4] = [0; 4];
    LittleEndian::write_u32(&mut bytes, n);
    bytes
}

/// byteorder's `LittleEndian::write_i16` on a buffer of two bytes: they hold
/// the two's complement of `n`, least significant byte first.
#[verifier::external_body]
fn i16_le(n: i16) -> (bytes: [u8; 2])
    ensures
        bytes@ == le_bytes_i16(n),
{
    let mut bytes: [u8; 2] = [0; 2];
    LittleEndian::write_i16(&mut bytes, n);
    bytes
}

/// Appends `bytes` to `out`.
fn append(out: &mut Vec<u8>, bytes: &[u8])
    ensures
        final(out)@ == old(out)@ + bytes@,
{
    let mut i: usize = 0;
    while i < bytes.len()
        invariant
            i <= bytes@.len(),
            out@ == old(out)@ + bytes@.take(i as int),
        decreases bytes@.len() - i,
    {
        out.push(bytes[i]);
        assert(bytes@.take(i + 1) == bytes@.take(i as int).push(bytes@[i as int]));
        i += 1;
    }
    assert(bytes@.take(i as int) == bytes@);
}

/// The 44 bytes of the header for `channel_count` channels at `sample_rate`
/// samples a second.
pub fn wav_header_bytes(channel_count: u32, sample_rate: u32) -> (header: Vec<u8>)
    ensures
        header@ == wav_header(channel_count, sample_rate),
        header@.len() == 44,
{
    let riff: [u8; 22] = [
        0x52, 0x49, 0x46, 0x46, 0x00, 0x00, 0x00, 0x00, 0x57, 0x41, 0x56, 0x45,
        0x66, 0x6d, 0x74, 0x20, 0x10, 0x00, 0x00, 0x00, 0x01, 0x00,
    ];
    let byte_rate: [u8; 4] = [0x00, 0x00, 0x00, 0x00];
    let data: [u8; 10] = [0x10, 0x00, 0x64, 0x61, 0x74, 0x61, 0xFE, 0xFF, 0xFF, 0x7F];
    let channels: u16 = (channel_count % 65536) as u16;
    let block_align: u16 = (channel_count % 32768 * 2) as u16;
    assert(block_align == channel_count * 2 % 65536);
    let mut header: Vec<u8> = Vec::with_capacity(44);
    append(&mut header, riff.as_slice());
    append(&mut header, u16_le(channels).as_slice());
    append(&mut header, u32_le(sample_rate).as_slice());
    append(&mut header, byte_rate.as_slice());
    append(&mut header, u16_le(block_align).as_slice());
    append(&mut header, data.as_slice());
    proof {
        assert(riff@ =~= seq![
            0x52u8, 0x49, 0x46, 0x46, 0x00, 0x00, 0x00, 0x00, 0x57, 0x41, 0x56, 0x45,
            0x66, 0x6d, 0x74, 0x20, 0x10, 0x00, 0x00, 0x00, 0x01, 0x00,
        ]);
        assert(byte_rate@ =~= seq![0x00u8, 0x00, 0x00, 0x00]);
        assert(data@ =~= seq![0x10u8, 0x00, 0x64, 0x61, 0x74, 0x61, 0xFE, 0xFF, 0xFF, 0x7F]);
        assert(header@ =~= wav_header(channel_count, sample_rate));
    }
    header
}

/// The bytes of a WAV stream that holds `samples`, interleaved by channel,
/// for `channel_count` channels at `sample_rate` samples a second.
pub fn dump_wav(samples: &[i16], channel_count: u32, sample_rate: u32) -> (bytes: Vec<u8>)
    ensures
        bytes@ == wav_bytes(samples@, channel_count, sample_rate),
{
    let mut bytes: Vec<u8> = wav_header_bytes(channel_count, sample_rate);
    let ghost header = bytes@;
    let mut i: usize = 0;
    while i < samples.len()
        invariant
            i <= samples@.len(),
            bytes@ == header + sample_bytes(samples@.take(i as int)),
        decreases samples@.len() - i,
    {
        let ghost before = bytes@;
        append(&mut bytes, i16_le(samples[i]).as_slice());
        proof {
            let done = samples@.take(i as int);
            let more = samples@.take(i + 1);
            assert(sample_bytes(more) =~= sample_bytes(done) + le_bytes_i16(samples@[i as int]));
            assert(bytes@ =~= header + sample_bytes(more));
        }
        i += 1;
    }
    assert(samples@.take(i as int) == samples@);
    bytes
}

} // verus!
