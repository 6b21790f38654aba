//! The decoder: uncompressed PCM in a RIFF/WAVE container, one or two
//! channels, 8, 16, 24 or 32 bits per sample.
//!
//! Every sample is widened to a signed 32-bit value at full scale (an 8-bit
//! sample is unsigned with its midpoint at 128 and moves to the top byte; 16
//! and 24-bit samples are shifted up), so the reducer sees one range whatever
//! the file's bit depth. A trailing partial frame is ignored. The RIFF size
//! field is not consulted; chunks are walked from offset twelve, each padded
//! to an even length.
use vstd::prelude::*;
use vstd::arithmetic::div_mod::lemma_fundamental_div_mod;
use vstd::arithmetic::mul::lemma_mul_inequality;
use crate::error::AudioError;

verus! {

/// What the header of a well-formed file says.
#[derive(Clone, Copy, Debug, PartialEq, Eq, Structural)]
pub struct WavLayout {
    pub channels: u16,
    pub sample_rate: u32,
    pub bits_per_sample: u16,
    pub block_align: u16,
    /// Offset of the first byte of sample data.
    pub data_start: usize,
    /// Number of whole frames (one sample per channel) in the data chunk.
    pub frame_count: usize,
}

/// Samples decoded from a file, one sequence per channel, at the file's rate.
pub struct SampleBuffer {
    pub sample_rate: u32,
    pub channels: Vec<Vec<i32>>,
}

impl SampleBuffer {
    /// One or two channels, all of the same length.
    pub open spec fn wf(&self) -> bool {
        &&& 1 <= self.channels@.len() <= 2
        &&& forall|c: int|
            0 <= c < self.channels@.len() ==> #[trigger] self.channels@[c]@.len()
                == self.channels@[0]@.len()
    }
}

pub open spec fn u16_at(b: Seq<u8>, i: int) -> nat {
    (b[i] + 256 * b[i + 1]) as nat
}

pub open spec fn u32_at(b: Seq<u8>, i: int) -> nat {
    u16_at(b, i) + 65536 * u16_at(b, i + 2)
}

pub open spec fn riff_id() -> Seq<u8> {
    seq![0x52u8, 0x49u8, 0x46u8, 0x46u8]
}

pub open spec fn wave_id() -> Seq<u8> {
    seq![0x57u8, 0x41u8, 0x56u8, 0x45u8]
}

pub open spec fn fmt_id() -> Seq<u8> {
    seq![0x66u8, 0x6du8, 0x74u8, 0x20u8]
}

pub open spec fn data_id() -> Seq<u8> {
    seq![0x64u8, 0x61u8, 0x74u8, 0x61u8]
}

pub open spec fn chunk_size(b: Seq<u8>, pos: int) -> nat {
    u32_at(b, pos + 4)
}

/// Where the chunk after the one at `pos` starts.
pub open spec fn next_chunk(b: Seq<u8>, pos: int) -> int {
    pos + 8 + chunk_size(b, pos) + chunk_size(b, pos) % 2
}

/// The offset of the first chunk tagged `id` at or after `pos`, walking
/// chunk by chunk while a whole chunk header fits.
pub open spec fn find_chunk(b: Seq<u8>, pos: int, id: Seq<u8>) -> Option<int>
    decreases b.len() - pos,
{
    if pos < 0 || pos + 8 > b.len() {
        None
    } else if b.subrange(pos, pos + 4) == id {
        Some(pos)
    } else if next_chunk(b, pos) + 8 > b.len() {
        None
    } else {
        find_chunk(b, next_chunk(b, pos), id)
    }
}

/// The header of `b`, or the first defect found in it.
pub open spec fn wav_layout(b: Seq<u8>) -> Result<WavLayout, AudioError> {
    if b.len() < 12 {
        Err(AudioError::Corrupt)
    } else if b.subrange(0, 4) != riff_id() || b.subrange(8, 12) != wave_id() {
        Err(AudioError::UnsupportedFormat)
    } else {
        match find_chunk(b, 12, fmt_id()) {
            None => Err(AudioError::Corrupt),
            Some(f) => {
                let body = f + 8;
                let channels = u16_at(b, body + 2);
                let bits = u16_at(b, body + 14);
                let align = u16_at(b, body + 12);
                if chunk_size(b, f) < 16 || body + 16 > b.len() {
                    Err(AudioError::Corrupt)
                } else if u16_at(b, body) != 1 {
                    Err(AudioError::UnsupportedFormat)
                } else if channels != 1 && channels != 2 {
                    Err(AudioError::UnsupportedFormat)
                } else if bits != 8 && bits != 16 && bits != 24 && bits != 32 {
                    Err(AudioError::UnsupportedFormat)
                } else if align != channels * (bits / 8) {
                    Err(AudioError::Corrupt)
                } else {
                    match find_chunk(b, 12, data_id()) {
                        None => Err(AudioError::Corrupt),
                        Some(d) => if d + 8 + chunk_size(b, d) > b.len() {
                            Err(AudioError::Corrupt)
                        } else {
                            Ok(
                                WavLayout {
                                    channels: channels as u16,
                                    sample_rate: u32_at(b, body + 4) as u32,
                                    bits_per_sample: bits as u16,
                                    block_align: align as u16,
                                    data_start: (d + 8) as usize,
                                    frame_count: (chunk_size(b, d) / align) as usize,
                                },
                            )
                        },
                    }
                }
            },
        }
    }
}

/// The sample stored at `b[o..]` with `bits` bits, at 32-bit full scale.
pub open spec fn pcm_sample(b: Seq<u8>, o: int, bits: nat) -> int {
    if bits == 8 {
        (b[o] - 128) * 0x100_0000
    } else if bits == 16 {
        let u = u16_at(b, o);
        (if u >= 0x8000 {
            u - 0x1_0000
        } else {
            u as int
        }) * 0x1_0000
    } else if bits == 24 {
        let u = u16_at(b, o) + 65536 * b[o + 2];
        (if u >= 0x80_0000 {
            u - 0x100_0000
        } else {
            u as int
        }) * 0x100
    } else {
        let u = u32_at(b, o);
        if u >= 0x8000_0000 {
            u - 0x1_0000_0000
        } else {
            u as int
        }
    }
}

/// Channel `c` of the file `b` laid out as `l`.
pub open spec fn channel_samples(b: Seq<u8>, l: WavLayout, c: int) -> Seq<i32> {
    Seq::new(
        l.frame_count as nat,
        |i: int|
            pcm_sample(
                b,
                l.data_start + i * l.block_align + c * (l.bits_per_sample / 8),
                l.bits_per_sample as nat,
            ) as i32,
    )
}

fn read_u16(b: &Vec<u8>, i: usize) -> (r: u16)
    requires
        i + 2 <= b@.len(),
    ensures
        r == u16_at(b@, i as int),
{
    let n = b.len();
    assert(i + 1 < n);
    (b[i] as u16) + 256 * (b[i + 1] as u16)
}

fn read_u32(b: &Vec<u8>, i: usize) -> (r: u32)
    requires
        i + 4 <= b@.len(),
    ensures
        r == u32_at(b@, i as int),
{
    let n = b.len();
    assert(i + 2 < n);
    (read_u16(b, i) as u32) + 65536 * (read_u16(b, i + 2) as u32)
}

fn tag_at(b: &Vec<u8>, pos: usize, t0: u8, t1: u8, t2: u8, t3: u8) -> (r: bool)
    requires
        pos + 4 <= b@.len(),
    ensures
        r == (b@.subrange(pos as int, pos + 4) == seq![t0, t1, t2, t3]),
{
    let n = b.len();
    assert(pos + 3 < n);
    let r = b[pos] == t0 && b[pos + 1] == t1 && b[pos + 2] == t2 && b[pos + 3] == t3;
    let ghost s = b@.subrange(pos as int, pos + 4);
    assert(r == (s == seq![t0, t1, t2, t3])) by {
        if r {
            assert(s =~= seq![t0, t1, t2, t3]);
        }
        if s == seq![t0, t1, t2, t3] {
            assert(s[0] == t0 && s[1] == t1 && s[2] == t2 && s[3] == t3);
        }
    }
    r
}

fn locate_chunk(b: &Vec<u8>, t0: u8, t1: u8, t2: u8, t3: u8) -> (r: Option<usize>)
    requires
        b@.len() >= 12,
    ensures
        match find_chunk(b@, 12, seq![t0, t1, t2, t3]) {
            Some(p) => r is Some && r->Some_0 == p,
            None => r is None,
        },
        r matches Some(p) ==> p + 8 <= b@.len(),
{
    let ghost id = seq![t0, t1, t2, t3];
    let n = b.len();
    let mut pos: usize = 12;
    loop
        invariant
            n == b@.len(),
            id == seq![t0, t1, t2, t3],
            12 <= pos <= n,
            find_chunk(b@, 12, id) == find_chunk(b@, pos as int, id),
        decreases n - pos,
    {
        if n - pos < 8 {
            return None;
        }
        if tag_at(b, pos, t0, t1, t2, t3) {
            return Some(pos);
        }
        let size = read_u32(b, pos + 4);
        let pad = size % 2;
        let rest = n - pos - 8;
        if (size as u64) + (pad as u64) > rest as u64 {
            assert(find_chunk(b@, next_chunk(b@, pos as int), id) is None);
            return None;
        }
        pos = pos + 8 + size as usize + pad as usize;
    }
}

proof fn lemma_find_chunk_bounds(b: Seq<u8>, pos: int, id: Seq<u8>)
    ensures
        find_chunk(b, pos, id) matches Some(p) ==> 0 <= pos <= p && p + 8 <= b.len(),
    decreases b.len() - pos,
{
    if 0 <= pos && pos + 8 <= b.len() && b.subrange(pos, pos + 4) != id && next_chunk(b, pos) + 8
        <= b.len() {
        lemma_find_chunk_bounds(b, next_chunk(b, pos), id);
    }
}

proof fn lemma_layout_fits(b: Seq<u8>)
    requires
        wav_layout(b) is Ok,
        b.len() <= usize::MAX,
    ensures
        ({
            let l = wav_layout(b)->Ok_0;
            &&& l.channels == 1 || l.channels == 2
            &&& l.bits_per_sample == 8 || l.bits_per_sample == 16 || l.bits_per_sample == 24
                || l.bits_per_sample == 32
            &&& l.block_align == l.channels * (l.bits_per_sample / 8)
            &&& l.data_start + l.frame_count * l.block_align <= b.len()
        }),
{
    let l = wav_layout(b)->Ok_0;
    let f = find_chunk(b, 12, fmt_id())->Some_0;
    let body = f + 8;
    assert(l.block_align == u16_at(b, body + 12));
    let d = find_chunk(b, 12, data_id())->Some_0;
    let size = chunk_size(b, d) as int;
    let align = l.block_align as int;
    let count = l.frame_count as int;
    assert(count == size / align);
    lemma_find_chunk_bounds(b, 12, data_id());
    assert(count * align <= size) by (nonlinear_arith)
        requires
            count == size / align,
            align > 0,
            size >= 0,
    ;
}

fn read_sample(b: &Vec<u8>, o: usize, bits: u16) -> (r: i32)
    requires
        bits == 8 || bits == 16 || bits == 24 || bits == 32,
        o + bits / 8 <= b@.len(),
    ensures
        r as int == pcm_sample(b@, o as int, bits as nat),
{
    let n = b.len();
    if bits == 8 {
        ((b[o] as i32) - 128) * 0x100_0000
    } else if bits == 16 {
        let u = read_u16(b, o) as i32;
        let v = if u >= 0x8000 {
            u - 0x1_0000
        } else {
            u
        };
        v * 0x1_0000
    } else if bits == 24 {
        assert(o + 2 < n);
        let u = (read_u16(b, o) as i32) + 65536 * (b[o + 2] as i32);
        let v = if u >= 0x80_0000 {
            u - 0x100_0000
        } else {
            u
        };
        v * 0x100
    } else {
        let u = read_u32(b, o);
        if u >= 0x8000_0000 {
            ((u as i64) - 0x1_0000_0000) as i32
        } else {
            u as i32
        }
    }
}

/// Reads the header of a WAVE file: its format and where its samples lie.
pub fn read_layout(b: &Vec<u8>) -> (r: Result<WavLayout, AudioError>)
    ensures
        r == wav_layout(b@),
{
    let n = b.len();
    if n < 12 {
        return Err(AudioError::Corrupt);
    }
    if !tag_at(b, 0, 0x52, 0x49, 0x46, 0x46) || !tag_at(b, 8, 0x57, 0x41, 0x56, 0x45) {
        return Err(AudioError::UnsupportedFormat);
    }
    let f = match locate_chunk(b, 0x66, 0x6d, 0x74, 0x20) {
        None => {
            return Err(AudioError::Corrupt);
        },
        Some(f) => f,
    };
    let size = read_u32(b, f + 4);
    let body = f + 8;
    if size < 16 || n - body < 16 {
        return Err(AudioError::Corrupt);
    }
    if read_u16(b, body) != 1 {
        return Err(AudioError::UnsupportedFormat);
    }
    let channels = read_u16(b, body + 2);
    if channels != 1 && channels != 2 {
        return Err(AudioError::UnsupportedFormat);
    }
    let bits = read_u16(b, body + 14);
    if bits != 8 && bits != 16 && bits != 24 && bits != 32 {
        return Err(AudioError::UnsupportedFormat);
    }
    let align = read_u16(b, body + 12);
    if align as u32 != (channels as u32) * ((bits / 8) as u32) {
        return Err(AudioError::Corrupt);
    }
    let sample_rate = read_u32(b, body + 4);
    let d = match locate_chunk(b, 0x64, 0x61, 0x74, 0x61) {
        None => {
            return Err(AudioError::Corrupt);
        },
        Some(d) => d,
    };
    let data_size = read_u32(b, d + 4);
    if data_size as u64 > (n - d - 8) as u64 {
        return Err(AudioError::Corrupt);
    }
    Ok(
        WavLayout {
            channels,
            sample_rate,
            bits_per_sample: bits,
            block_align: align,
            data_start: d + 8,
            frame_count: (data_size / (align as u32)) as usize,
        },
    )
}

/// Decodes a WAVE file into one sequence of full-scale samples per channel.
pub fn decode_wav(b: &Vec<u8>) -> (r: Result<SampleBuffer, AudioError>)
    ensures
        match r {
            Ok(buf) => {
                &&& wav_layout(b@) is Ok
                &&& buf.wf()
                &&& buf.sample_rate == wav_layout(b@)->Ok_0.sample_rate
                &&& buf.channels@.len() == wav_layout(b@)->Ok_0.channels
                &&& forall|c: int|
                    0 <= c < buf.channels@.len() ==> #[trigger] buf.channels@[c]@
                        == channel_samples(b@, wav_layout(b@)->Ok_0, c)
            },
            Err(e) => wav_layout(b@) == Err::<WavLayout, AudioError>(e),
        },
{
    let l = match read_layout(b) {
        Err(e) => {
            return Err(e);
        },
        Ok(l) => l,
    };
    let n = b.len();
    let width = (l.bits_per_sample / 8) as usize;
    let align = l.block_align as usize;
    let stereo = l.channels == 2;
    proof {
        lemma_layout_fits(b@);
    }
    let mut left: Vec<i32> = Vec::new();
    let mut right: Vec<i32> = Vec::new();
    let mut f: usize = 0;
    let mut off: usize = l.data_start;
    while f < l.frame_count
        invariant
            n == b@.len(),
            wav_layout(b@) == Ok::<WavLayout, AudioError>(l),
            width == l.bits_per_sample / 8,
            align == l.block_align,
            align == l.channels * width,
            stereo == (l.channels == 2),
            f <= l.frame_count,
            off == l.data_start + f * align,
            l.data_start + l.frame_count * align <= n,
            left@ == channel_samples(b@, l, 0).subrange(0, f as int),
            stereo ==> right@ == channel_samples(b@, l, 1).subrange(0, f as int),
        decreases l.frame_count - f,
    {
        proof {
            lemma_mul_inequality(f as int + 1, l.frame_count as int, align as int);
            assert((f + 1) * align == f * align + align) by (nonlinear_arith);
        }
        let v = read_sample(b, off, l.bits_per_sample);
        left.push(v);
        if stereo {
            let w = read_sample(b, off + width, l.bits_per_sample);
            right.push(w);
        }
        off = off + align;
        f = f + 1;
        assert(left@ =~= channel_samples(b@, l, 0).subrange(0, f as int));
        assert(stereo ==> right@ =~= channel_samples(b@, l, 1).subrange(0, f as int));
    }
    assert(left@ =~= channel_samples(b@, l, 0));
    assert(stereo ==> right@ =~= channel_samples(b@, l, 1));
    let mut channels: Vec<Vec<i32>> = Vec::new();
    channels.push(left);
    if stereo {
        channels.push(right);
    }
    Ok(SampleBuffer { sample_rate: l.sample_rate, channels })
}

} // verus!
