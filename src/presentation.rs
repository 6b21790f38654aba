//! Waveform data for display: a WAVE file reduced to a fixed number of peak
//! points per side, and the file itself as a data URI for playback.
use vstd::prelude::*;
use base64::Engine;
use crate::error::AudioError;
use crate::reduce::{reduce, reduced};
use crate::wav::{channel_samples, decode_wav, wav_layout, SampleBuffer};

verus! {

/// The number of points per side used where a caller names none.
pub const DEFAULT_TARGET_POINTS: u32 = 1000;

/// Peak points for the left and the right side, of equal length. A mono
/// source shows its one channel on both sides.
pub struct AudioPresentation {
    pub left_channel_points: Vec<u32>,
    pub right_channel_points: Vec<u32>,
}

/// The samples shown on the right: the second channel, or the only one.
pub open spec fn right_source(buf: &SampleBuffer) -> Seq<i32> {
    buf.channels@[buf.channels@.len() - 1]@
}

/// Reduces each side of `buf` to `target` points.
pub fn present(buf: &SampleBuffer, target: usize) -> (r: Result<AudioPresentation, AudioError>)
    requires
        buf.wf(),
    ensures
        match r {
            Ok(p) => {
                &&& target > 0
                &&& p.left_channel_points@ == reduced(buf.channels@[0]@, target as nat)
                &&& p.right_channel_points@ == reduced(right_source(buf), target as nat)
                &&& p.left_channel_points@.len() == target
                &&& p.right_channel_points@.len() == target
                &&& buf.channels@.len() == 1 ==> p.left_channel_points@ == p.right_channel_points@
            },
            Err(e) => target == 0 && e == AudioError::InvalidArgument,
        },
{
    let left = match reduce(&buf.channels[0], target) {
        Ok(points) => points,
        Err(e) => {
            return Err(e);
        },
    };
    let last = buf.channels.len() - 1;
    let right = if last == 0 {
        left.clone()
    } else {
        match reduce(&buf.channels[last], target) {
            Ok(points) => points,
            Err(e) => {
                return Err(e);
            },
        }
    };
    assert(right@ =~= reduced(right_source(buf), target as nat));
    Ok(AudioPresentation { left_channel_points: left, right_channel_points: right })
}

/// Decodes the WAVE file `bytes` and reduces each side to `target` points.
/// The file is decoded first, so a defective file reports its own error
/// whatever the target; a well-formed file with a target of zero is refused.
pub fn load_presentation(bytes: &Vec<u8>, target: u32) -> (r: Result<AudioPresentation, AudioError>)
    ensures
        match r {
            Ok(p) => {
                let l = wav_layout(bytes@)->Ok_0;
                &&& target > 0
                &&& wav_layout(bytes@) is Ok
                &&& p.left_channel_points@ == reduced(channel_samples(bytes@, l, 0), target as nat)
                &&& p.right_channel_points@ == reduced(
                    channel_samples(bytes@, l, l.channels - 1),
                    target as nat,
                )
                &&& p.left_channel_points@.len() == target
                &&& p.right_channel_points@.len() == target
                &&& l.channels == 1 ==> p.left_channel_points@ == p.right_channel_points@
            },
            Err(e) => if wav_layout(bytes@) is Err {
                wav_layout(bytes@) == Err::<crate::wav::WavLayout, AudioError>(e)
            } else {
                target == 0 && e == AudioError::InvalidArgument
            },
        },
{
    let buf = match decode_wav(bytes) {
        Ok(buf) => buf,
        Err(e) => {
            return Err(e);
        },
    };
    if target == 0 {
        return Err(AudioError::InvalidArgument);
    }
    let ghost l = wav_layout(bytes@)->Ok_0;
    assert(buf.channels@[0]@ == channel_samples(bytes@, l, 0));
    assert(right_source(&buf) == channel_samples(bytes@, l, l.channels - 1));
    present(&buf, target as usize)
}

/// The character of the six-bit value `v` in the standard base64 alphabet:
/// `A`-`Z`, `a`-`z`, `0`-`9`, `+`, `/`.
pub open spec fn base64_digit(v: int) -> char {
    if v < 26 {
        (65 + v) as char
    } else if v < 52 {
        (97 + v - 26) as char
    } else if v < 62 {
        (48 + v - 52) as char
    } else if v == 62 {
        '+'
    } else {
        '/'
    }
}

/// The padded standard base64 text of `b`: four characters for each group of
/// three bytes, the last group filled out with `=`.
pub open spec fn base64_padded(b: Seq<u8>) -> Seq<char>
    decreases b.len(),
{
    let x = b[0] as int;
    let y = if b.len() > 1 {
        b[1] as int
    } else {
        0
    };
    let z = if b.len() > 2 {
        b[2] as int
    } else {
        0
    };
    if b.len() == 0 {
        Seq::empty()
    } else if b.len() == 1 {
        seq![base64_digit(x / 4), base64_digit((x % 4) * 16), '=', '=']
    } else if b.len() == 2 {
        seq![base64_digit(x / 4), base64_digit((x % 4) * 16 + y / 16), base64_digit((y % 16) * 4), '=']
    } else {
        seq![
            base64_digit(x / 4),
            base64_digit((x % 4) * 16 + y / 16),
            base64_digit((y % 16) * 4 + z / 64),
            base64_digit(z % 64),
        ] + base64_padded(b.subrange(3, b.len() as int))
    }
}

proof fn lemma_base64_len(b: Seq<u8>)
    ensures
        base64_padded(b).len() == 4 * ((b.len() + 2) / 3),
    decreases b.len(),
{
    if b.len() > 2 {
        lemma_base64_len(b.subrange(3, b.len() as int));
    }
}

/// Relies on base64's `STANDARD` engine `encode`: the padded encoding with
/// the standard alphabet. It panics when the encoded length overflows
/// `usize`, which `requires` excludes.
#[verifier::external_body]
fn base64_standard(b: &Vec<u8>) -> (r: String)
    requires
        4 * ((b@.len() + 2) / 3) <= usize::MAX,
    ensures
        r@ == base64_padded(b@),
{
    base64::engine::general_purpose::STANDARD.encode(b)
}

/// The prefix of the data URI that carries a WAVE file.
pub open spec fn wav_uri_prefix() -> Seq<char> {
    "data:audio/wav;base64,"@
}

/// The data URI for a WAVE file whose base64 text is `encoded`.
pub fn wav_uri_from_base64(encoded: &str) -> (r: String)
    ensures
        r@ == wav_uri_prefix() + encoded@,
{
    let mut uri = String::from_str("data:audio/wav;base64,");
    uri.append(encoded);
    uri
}

/// The file `bytes` as a `data:audio/wav;base64,` URI.
pub fn audio_data_uri(bytes: &Vec<u8>) -> (r: String)
    requires
        4 * ((bytes@.len() + 2) / 3) <= usize::MAX,
    ensures
        r@ == wav_uri_prefix() + base64_padded(bytes@),
        r@.len() == 22 + 4 * ((bytes@.len() + 2) / 3),
{
    proof {
        reveal_strlit("data:audio/wav;base64,");
        lemma_base64_len(bytes@);
    }
    let encoded = base64_standard(bytes);
    wav_uri_from_base64(encoded.as_str())
}

} // verus!
