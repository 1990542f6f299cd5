use vstd::prelude::*;

verus! {

/// The value of the little-endian signed 16-bit sample with bytes `lo`, `hi`.
pub open spec fn pcm16_value(lo: u8, hi: u8) -> int {
    let u = lo + 256 * hi;
    if u >= 0x8000 {
        u - 0x1_0000
    } else {
        u
    }
}

/// The header of a wave file held in `bytes`, as `riff_wave::WaveReader::new`
/// reads it: (channels, sample rate, bits per sample, position of the first
/// byte of sample data), or `None` when the bytes are not a wave file it reads.
pub uninterp spec fn wave_header(bytes: Seq<u8>) -> Option<(u16, u32, u16, usize)>;

/// `riff_wave::WaveReader::new` over the bytes of a whole wave file. The
/// result is named: the parse depends on the bytes alone. The position is that
/// of the reader once it stands after the header of the "data" chunk.
#[verifier::external_body]
pub fn read_wave_header(bytes: &[u8]) -> (r: Option<(u16, u32, u16, usize)>)
    ensures
        r == wave_header(bytes@),
{
    let mut cursor = std::io::Cursor::new(bytes);
    let format = match riff_wave::WaveReader::new(&mut cursor) {
        Ok(reader) => reader.pcm_format,
        Err(_) => return None,
    };
    Some((format.num_channels, format.sample_rate, format.bits_per_sample, cursor.position() as usize))
}

/// The samples of little-endian signed 16-bit data, one per consecutive pair
/// of bytes; a last odd byte is left out.
pub open spec fn pcm16_decoded(b: Seq<u8>) -> Seq<i16> {
    Seq::new(b.len() / 2, |i: int| pcm16_value(b[2 * i], b[2 * i + 1]) as i16)
}

/// The bytes of a wave file from the start of its sample data to its end
/// (none when the data would start past the end).
pub open spec fn sample_bytes(bytes: Seq<u8>, off: usize) -> Seq<u8> {
    if off <= bytes.len() {
        bytes.subrange(off as int, bytes.len() as int)
    } else {
        Seq::empty()
    }
}

/// Whether a wave file of this header is loaded: 16-bit samples, and a single
/// channel when `mono_only`.
pub open spec fn wave_accepted(num_channels: u16, bits_per_sample: u16, mono_only: bool) -> bool {
    bits_per_sample == 16 && (!mono_only || num_channels == 1)
}

/// The sample rate and the samples of a wave file held in `bytes`: `None`
/// when the bytes are no wave file, or its samples are not 16-bit (or, when
/// `mono_only`, it has more than one channel); otherwise every pair of bytes
/// from the start of the sample data to the end is one sample.
pub fn load_wav_bytes(bytes: &[u8], mono_only: bool) -> (r: Option<(u32, Vec<i16>)>)
    ensures
        match wave_header(bytes@) {
            Some((nc, rate, bps, off)) => if wave_accepted(nc, bps, mono_only) {
                r matches Some((sr, s)) && sr == rate && s@ == pcm16_decoded(sample_bytes(bytes@, off))
            } else {
                r is None
            },
            None => r is None,
        },
{
    let (num_channels, sample_rate, bits_per_sample, off) = match read_wave_header(bytes) {
        Some(h) => h,
        None => {
            return None;
        },
    };
    let accepted = if mono_only {
        is_mono_pcm16(num_channels, bits_per_sample)
    } else {
        is_pcm16(bits_per_sample)
    };
    if !accepted {
        return None;
    }
    let samples = if off <= bytes.len() {
        let (_, data) = bytes.split_at(off);
        decode_pcm16_le(data)
    } else {
        Vec::new()
    };
    proof {
        let d = sample_bytes(bytes@, off);
        assert(samples@ =~= pcm16_decoded(d));
    }
    Some((sample_rate, samples))
}

/// Whether a wave file of this format is one that can be loaded: a single
/// channel of 16-bit samples.
pub fn is_mono_pcm16(num_channels: u16, bits_per_sample: u16) -> (r: bool)
    ensures
        r == (num_channels == 1 && bits_per_sample == 16),
{
    num_channels == 1 && bits_per_sample == 16
}

/// Whether wave data of this sample width can be mixed: 16-bit samples, any
/// number of channels.
pub fn is_pcm16(bits_per_sample: u16) -> (r: bool)
    ensures
        r == (bits_per_sample == 16),
{
    bits_per_sample == 16
}

/// Decodes one little-endian signed 16-bit sample.
fn pcm16_from_bytes(lo: u8, hi: u8) -> (s: i16)
    ensures
        s == pcm16_value(lo, hi),
{
    let u: u16 = (lo as u16) | ((hi as u16) << 8u16);
    assert(u == lo + 256 * hi) by (bit_vector)
        requires
            u == (lo as u16) | ((hi as u16) << 8u16),
    ;
    let s = u as i16;
    assert(s == (if u >= 0x8000 { u - 0x1_0000 } else { u as int })) by (bit_vector)
        requires
            s == u as i16,
    ;
    s
}

/// The samples of a block of little-endian signed 16-bit sample data, one
/// per consecutive pair of bytes; a last odd byte is left out.
pub fn decode_pcm16_le(bytes: &[u8]) -> (samples: Vec<i16>)
    ensures
        samples@.len() == bytes@.len() / 2,
        forall|i: int|
            0 <= i < samples@.len() ==> #[trigger] samples@[i] == pcm16_value(bytes@[2 * i], bytes@[2 * i + 1]),
        samples@ == pcm16_decoded(bytes@),
{
    let mut samples: Vec<i16> = Vec::new();
    let len = bytes.len();
    let n = len / 2;
    let mut i: usize = 0;
    while i < n
        invariant
            len == bytes@.len(),
            n == len / 2,
            i <= n,
            samples@.len() == i,
            forall|k: int|
                0 <= k < i ==> #[trigger] samples@[k] == pcm16_value(bytes@[2 * k], bytes@[2 * k + 1]),
        decreases n - i,
    {
        assert(2 * i + 1 < bytes@.len()) by (nonlinear_arith)
            requires
                i < n,
                n == len / 2,
                len == bytes@.len(),
        ;
        let s = pcm16_from_bytes(bytes[2 * i], bytes[2 * i + 1]);
        samples.push(s);
        i = i + 1;
    }
    assert(samples@ =~= pcm16_decoded(bytes@));
    samples
}

} // verus!
