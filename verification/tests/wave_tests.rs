use raw_util::signal::load_wav_bytes;

fn wave_bytes(channels: u16, rate: u32, bits: u16, data: &[u8]) -> Vec<u8> {
    let mut b = Vec::new();
    b.extend_from_slice(b"RIFF");
    b.extend_from_slice(&(36 + data.len() as u32).to_le_bytes());
    b.extend_from_slice(b"WAVE");
    b.extend_from_slice(b"fmt ");
    b.extend_from_slice(&16u32.to_le_bytes());
    b.extend_from_slice(&1u16.to_le_bytes());
    b.extend_from_slice(&channels.to_le_bytes());
    b.extend_from_slice(&rate.to_le_bytes());
    b.extend_from_slice(&(rate * channels as u32 * bits as u32 / 8).to_le_bytes());
    b.extend_from_slice(&(channels * bits / 8).to_le_bytes());
    b.extend_from_slice(&bits.to_le_bytes());
    b.extend_from_slice(b"data");
    b.extend_from_slice(&(data.len() as u32).to_le_bytes());
    b.extend_from_slice(data);
    b
}

#[test]
fn loads_mono_16_bit_samples() {
    let bytes = wave_bytes(1, 44100, 16, &[0x01, 0x00, 0xff, 0xff, 0x00, 0x80]);
    assert_eq!(load_wav_bytes(&bytes, true), Some((44100, vec![1i16, -1, -32768])));
    assert_eq!(load_wav_bytes(&bytes, false), Some((44100, vec![1i16, -1, -32768])));
}

#[test]
fn trailing_odd_byte_is_left_out() {
    let bytes = wave_bytes(1, 8000, 16, &[0x02, 0x00, 0x07]);
    assert_eq!(load_wav_bytes(&bytes, true), Some((8000, vec![2i16])));
}

#[test]
fn stereo_loads_only_when_not_mono_only() {
    let bytes = wave_bytes(2, 48000, 16, &[0x01, 0x00, 0x02, 0x00]);
    assert_eq!(load_wav_bytes(&bytes, true), None);
    assert_eq!(load_wav_bytes(&bytes, false), Some((48000, vec![1i16, 2])));
}

#[test]
fn other_widths_and_non_wave_bytes_give_none() {
    let bytes = wave_bytes(1, 44100, 8, &[0x01, 0x02]);
    assert_eq!(load_wav_bytes(&bytes, false), None);
    assert_eq!(load_wav_bytes(b"not a wave file at all", false), None);
    assert_eq!(load_wav_bytes(&[], true), None);
}
